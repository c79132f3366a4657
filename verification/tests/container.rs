use ncmc_lib::blob::{
    decrypt_key_blob, decrypt_meta_blob, meta_blob_text, open_key_plaintext, open_meta_plaintext,
};
use ncmc_lib::decode::{decode_ncm, OpenError, Skipping};
use ncmc_lib::encode::{
    encode_key_blob, encode_meta_blob, encode_metadata, encode_ncm, encode_preamble,
    write_len_prefixed, BodyEncoder, BodyStep,
};
use ncmc_lib::header::{HeaderParser, HeaderStep};
use ncmc_lib::{Meta, NcmFile};

const KEY_BLOB: [u8; 32] = [
    44, 206, 213, 235, 105, 234, 251, 20, 85, 13, 69, 191, 97, 221, 23, 29, 245, 44, 245, 110, 45,
    7, 100, 5, 164, 114, 133, 104, 183, 207, 143, 189,
];

const META_BLOB: [u8; 46] = [
    82, 85, 80, 67, 8, 6, 26, 75, 39, 12, 13, 68, 23, 67, 14, 12, 7, 10, 5, 26, 74, 89, 54, 1, 14,
    82, 27, 46, 51, 14, 5, 85, 86, 33, 80, 23, 50, 58, 45, 58, 36, 83, 51, 34, 94, 94,
];

/// A key blob whose plaintext ends the magic wrongly.
const WRONG_KEY_MAGIC: [u8; 32] = [
    44, 206, 213, 235, 105, 234, 251, 20, 85, 13, 69, 191, 97, 221, 23, 29, 51, 16, 119, 118, 7,
    188, 247, 205, 80, 126, 84, 12, 94, 194, 214, 47,
];

/// The key blob of an empty content key.
const EMPTY_KEY_BLOB: [u8; 32] = [
    44, 206, 213, 235, 105, 234, 251, 20, 85, 13, 69, 191, 97, 221, 23, 29, 54, 127, 55, 31, 194,
    187, 176, 161, 199, 70, 183, 81, 27, 64, 99, 107,
];

/// Metadata blobs whose text is not base64, not a ciphertext, and not behind the marker.
const NO_BASE64: [u8; 25] = [
    82, 85, 80, 67, 8, 6, 26, 75, 39, 12, 13, 68, 23, 67, 14, 12, 7, 10, 5, 26, 74, 89, 66, 66, 66,
];
const NO_CIPHERTEXT: [u8; 30] = [
    82, 85, 80, 67, 8, 6, 26, 75, 39, 12, 13, 68, 23, 67, 14, 12, 7, 10, 5, 26, 74, 89, 46, 55, 42,
    25, 45, 39, 54, 94,
];
const NO_MARKER: [u8; 46] = [
    82, 85, 80, 67, 8, 6, 26, 75, 39, 12, 13, 68, 23, 67, 14, 12, 7, 10, 5, 26, 74, 89, 58, 83, 48,
    25, 4, 40, 9, 18, 0, 83, 20, 26, 33, 27, 17, 20, 25, 83, 11, 17, 32, 20, 94, 94,
];

const BODY: [u8; 10] = [0x98, 0xc0, 0x9e, 0x2b, 0xd8, 0x61, 0xe1, 0xe7, 0x47, 0x7f];

fn le(n: usize) -> [u8; 4] {
    (n as u32).to_le_bytes()
}

/// A container made of the given parts.
fn container(
    gap: [u8; 2],
    key_blob: &[u8],
    meta_blob: &[u8],
    crc: [u8; 5],
    frame_len: usize,
    image: &[u8],
    rest: &[u8],
) -> Vec<u8> {
    let mut out = b"CTENFDAM".to_vec();
    out.extend(gap);
    out.extend(le(key_blob.len()));
    out.extend(key_blob);
    out.extend(le(meta_blob.len()));
    out.extend(meta_blob);
    out.extend(crc);
    out.extend(le(frame_len));
    out.extend(le(image.len()));
    out.extend(image);
    out.extend(rest);
    out
}

fn meta(cover: Vec<u8>) -> Meta {
    Meta {
        album: "Album".to_string(),
        album_id: "1".to_string(),
        album_pic: "https://example.com/pic.jpg".to_string(),
        album_pic_doc_id: "2".to_string(),
        alias: Vec::new(),
        artist: Vec::new(),
        bitrate: 320000,
        duration: 1000,
        fee: None,
        flag: Some(4),
        format: "flac".to_string(),
        mp3_doc_id: None,
        gain: Some(f64::to_bits(-1.5)),
        music_id: "3".to_string(),
        music_name: "Name".to_string(),
        mv_id: "0".to_string(),
        trans_names: Vec::new(),
        cover,
    }
}

fn message<T>(result: Result<T, ncmc_lib::NcmError>) -> String {
    match result {
        Ok(_) => panic!("accepted"),
        Err(error) => error.message().clone(),
    }
}

fn invalid(data: &[u8]) -> String {
    match decode_ncm(data, Skipping::Reading) {
        Err(OpenError::Invalid(error)) => error.message().clone(),
        other => panic!("unexpected: {:?}", other),
    }
}

#[test]
fn key_blob_bytes() {
    assert_eq!(encode_key_blob(b"abc"), KEY_BLOB);
    assert_eq!(encode_key_blob(b""), EMPTY_KEY_BLOB);
    assert_eq!(decrypt_key_blob(&KEY_BLOB).unwrap(), b"abc");
    assert_eq!(decrypt_key_blob(&EMPTY_KEY_BLOB).unwrap(), b"");
}

#[test]
fn meta_blob_bytes() {
    assert_eq!(encode_meta_blob(b"{}"), META_BLOB);
    assert_eq!(decrypt_meta_blob(&META_BLOB).unwrap(), b"{}");
    assert_eq!(meta_blob_text(&META_BLOB).unwrap(), b"Ubm1xMPmf65B3tQYNYG0PA==");
}

#[test]
fn key_blobs_share_their_first_block() {
    for len in [0usize, 1, 14, 15, 16, 31, 100] {
        let blob = encode_key_blob(&vec![len as u8; len]);
        assert_eq!(blob[..16], KEY_BLOB[..16]);
        assert_eq!(blob.len(), 16 * ((17 + len) / 16 + 1));
        assert_ne!(blob, KEY_BLOB);
    }
}

#[test]
fn container_written_in_pieces() {
    let image = [0xff, 0xd8, 0xff];
    let mut out = encode_preamble(b"abc");
    out.extend(encode_metadata(b"{}", &image));
    let mut encoder = BodyEncoder::new(b"abc");
    for chunk in [&b"f"[..], &b"LaC au"[..], &b"dio"[..]] {
        match encoder.encode_chunk(chunk) {
            BodyStep::Write(bytes) => out.extend(bytes),
            BodyStep::Finish => panic!("not at the end"),
        }
    }
    assert_eq!(out, encode_ncm(&meta(image.to_vec()), b"{}", b"abc", b"fLaC audio"));
    assert_eq!(decode_ncm(&out, Skipping::Reading).unwrap().audio, b"fLaC audio");
}

#[test]
fn key_blob_errors() {
    assert_eq!(message(decrypt_key_blob(&[0; 5])), "Failed to decrypt key");
    assert_eq!(message(decrypt_key_blob(&[])), "Failed to decrypt key");
    assert_eq!(message(decrypt_key_blob(&KEY_BLOB[..31])), "Failed to decrypt key");
    assert_eq!(message(decrypt_key_blob(&[0; 32])), "Failed to decrypt key");
    assert_eq!(message(decrypt_key_blob(&WRONG_KEY_MAGIC)), "Invalid key header");
}

#[test]
fn meta_blob_errors() {
    assert_eq!(message(decrypt_meta_blob(&[])), "Invalid metadata header");
    assert_eq!(message(decrypt_meta_blob(&META_BLOB[1..])), "Invalid metadata header");
    assert_eq!(message(decrypt_meta_blob(&NO_BASE64)), "Failed to decode base64 metadata");
    assert_eq!(message(decrypt_meta_blob(&NO_CIPHERTEXT)), "Failed to decrypt metadata");
    assert_eq!(message(decrypt_meta_blob(&META_BLOB[..22])), "Failed to decrypt metadata");
    assert_eq!(message(decrypt_meta_blob(&NO_MARKER)), "Invalid meta marker");
}

#[test]
fn plaintexts() {
    assert_eq!(message(open_key_plaintext(None)), "Failed to decrypt key");
    assert_eq!(
        message(open_key_plaintext(Some(b"neteasecloudmusi".to_vec()))),
        "Invalid key header"
    );
    assert_eq!(open_key_plaintext(Some(b"neteasecloudmusic\x01\x02".to_vec())).unwrap(), [1, 2]);
    assert_eq!(message(open_meta_plaintext(None)), "Failed to decrypt metadata");
    assert_eq!(message(open_meta_plaintext(Some(b"music".to_vec()))), "Invalid meta marker");
    assert_eq!(open_meta_plaintext(Some(b"music:[]".to_vec())).unwrap(), b"[]");
}

#[test]
fn container_bytes() {
    let image = [0xff, 0xd8, 0xff];
    let expected = container([1, 0x70], &KEY_BLOB, &META_BLOB, [0; 5], 3, &image, &BODY);
    assert_eq!(encode_ncm(&meta(image.to_vec()), b"{}", b"abc", b"fLaC audio"), expected);
    let mut pieces = encode_preamble(b"abc");
    pieces.extend(encode_metadata(b"{}", &image));
    assert_eq!(pieces, expected[..expected.len() - BODY.len()]);
}

#[test]
fn length_prefix() {
    let mut out = vec![7u8];
    write_len_prefixed(&mut out, &[9; 258]);
    assert_eq!(out[..5], [7, 2, 1, 0, 0]);
    assert_eq!(out[5..], [9; 258]);
}

#[test]
fn body_is_encoded_chunk_by_chunk() {
    let mut encoder = BodyEncoder::new(b"abc");
    let mut out = Vec::new();
    for chunk in [&b"fL"[..], &b"aC aud"[..], &b"io"[..]] {
        match encoder.encode_chunk(chunk) {
            BodyStep::Write(bytes) => out.extend(bytes),
            BodyStep::Finish => panic!("not at the end"),
        }
    }
    assert_eq!(out, BODY);
    assert!(matches!(encoder.encode_chunk(b""), BodyStep::Finish));
}

#[test]
fn decoding_ignores_gap_crc_and_padding() {
    let image = [0xff, 0xd8, 0xff];
    let mut rest = vec![0xaa; 4];
    rest.extend(BODY);
    let data = container([0xee, 0xdd], &KEY_BLOB, &META_BLOB, [1, 2, 3, 4, 5], 7, &image, &rest);
    let decoded = decode_ncm(&data, Skipping::Reading).unwrap();
    assert_eq!(decoded.audio, b"fLaC audio");
    assert_eq!(decoded.cover, image);
    assert_eq!(decoded.json, b"{}");
    assert_eq!(decoded.key_data, b"abc");
}

#[test]
fn empty_cover_and_audio() {
    let encoded = encode_ncm(&meta(Vec::new()), b"{}", b"abc", b"");
    let decoded = decode_ncm(&encoded, Skipping::Reading).unwrap();
    assert!(decoded.cover.is_empty());
    assert!(decoded.audio.is_empty());
}

#[test]
fn decode_errors() {
    let good = container([1, 0x70], &KEY_BLOB, &META_BLOB, [0; 5], 3, &[1, 2, 3], &[]);
    for n in 0..good.len() {
        let result = decode_ncm(&good[..n], Skipping::Reading);
        assert!(matches!(result, Err(OpenError::Truncated)), "{} bytes", n);
    }
    assert!(decode_ncm(&good, Skipping::Reading).is_ok());

    let mut wrong = good.clone();
    wrong[7] = b'N';
    assert_eq!(invalid(&wrong), "Invalid file header");
    let data = container([0; 2], &WRONG_KEY_MAGIC, &META_BLOB, [0; 5], 0, &[], &[]);
    assert_eq!(invalid(&data), "Invalid key header");
    let data = container([0; 2], &KEY_BLOB, &NO_MARKER, [0; 5], 0, &[], &[]);
    assert_eq!(invalid(&data), "Invalid meta marker");

    let data = container([0; 2], &EMPTY_KEY_BLOB, &META_BLOB, [0; 5], 0, &[], &[]);
    assert!(matches!(decode_ncm(&data, Skipping::Reading), Err(OpenError::EmptyKey)));
    let data = container([0; 2], &KEY_BLOB, &META_BLOB, [0; 5], 2, &[1, 2, 3], &[]);
    assert!(matches!(decode_ncm(&data, Skipping::Reading), Err(OpenError::FrameOverrun)));
    let cut = decode_ncm(&data[..data.len() - 1], Skipping::Reading);
    assert!(matches!(cut, Err(OpenError::Truncated)));
    let data = container([0; 2], &KEY_BLOB, &META_BLOB, [0; 5], 4, &[1, 2, 3], &[]);
    assert!(matches!(decode_ncm(&data, Skipping::Reading), Err(OpenError::Truncated)));
}

#[test]
fn seeking_may_pass_the_end() {
    let good = container([1, 0x70], &KEY_BLOB, &META_BLOB, [0; 5], 9, &[1, 2, 3], &[0; 6]);
    for n in 0..good.len() - 6 {
        let result = decode_ncm(&good[..n], Skipping::Seeking);
        assert!(matches!(result, Err(OpenError::Truncated)), "{} bytes", n);
    }
    for n in good.len() - 6..=good.len() {
        let decoded = decode_ncm(&good[..n], Skipping::Seeking).unwrap();
        assert_eq!(decoded.cover, [1, 2, 3]);
        assert_eq!(decoded.json, b"{}");
        assert!(decoded.audio.is_empty());
        assert_eq!(decode_ncm(&good[..n], Skipping::Reading).is_ok(), n == good.len());
    }
    let mut longer = good.clone();
    longer.extend(BODY);
    for skipping in [Skipping::Reading, Skipping::Seeking] {
        assert_eq!(decode_ncm(&longer, skipping).unwrap().audio, b"fLaC audio");
    }
}

#[test]
fn header_steps() {
    let mut header = HeaderParser::new();
    assert!(matches!(header.step(), HeaderStep::Read(10)));
    assert_eq!(message(header.feed(b"CTENFDAX\x01\x70")), "Invalid file header");
    assert!(matches!(header.step(), HeaderStep::Read(10)));
    header.feed(b"CTENFDAM\x01\x70").unwrap();
    assert!(matches!(header.step(), HeaderStep::Read(4)));
    header.feed(&le(KEY_BLOB.len())).unwrap();
    assert!(matches!(header.step(), HeaderStep::Read(32)));
    header.feed(&KEY_BLOB).unwrap();
    assert!(matches!(header.step(), HeaderStep::AcceptKey));
    assert_eq!(header.key_data(), b"abc");
    header.accept_key();
    header.feed(&le(META_BLOB.len())).unwrap();
    assert!(matches!(header.step(), HeaderStep::Read(46)));
    assert_eq!(message(header.feed(&NO_MARKER)), "Invalid meta marker");
    header.feed(&META_BLOB).unwrap();
    assert!(matches!(header.step(), HeaderStep::AcceptMetadata));
    assert_eq!(header.json(), b"{}");
    header.accept_metadata();
    assert!(matches!(header.step(), HeaderStep::Skip(5)));
    header.skipped();
    header.feed(&le(9)).unwrap();
    header.feed(&le(2)).unwrap();
    assert!(matches!(header.step(), HeaderStep::Read(2)));
    assert!(header.image_fits());
    header.feed(&[5, 6]).unwrap();
    assert!(matches!(header.step(), HeaderStep::Skip(7)));
    header.skipped();
    assert!(matches!(header.step(), HeaderStep::Done));

    let (mut key, meta) = header.into_parts(meta(vec![0]));
    assert_eq!(meta.cover, [5, 6]);
    assert_eq!(meta.music_name, "Name");
    let mut body = BODY;
    key.apply(&mut body);
    assert_eq!(&body, b"fLaC audio");
}

fn opened(cover: &[u8], album_pic: &str) -> NcmFile<u8> {
    let mut header = HeaderParser::new();
    header.feed(b"CTENFDAM\x01\x70").unwrap();
    header.feed(&le(KEY_BLOB.len())).unwrap();
    header.feed(&KEY_BLOB).unwrap();
    header.accept_key();
    header.feed(&le(META_BLOB.len())).unwrap();
    header.feed(&META_BLOB).unwrap();
    header.accept_metadata();
    header.skipped();
    header.feed(&le(cover.len())).unwrap();
    header.feed(&le(cover.len())).unwrap();
    header.feed(cover).unwrap();
    header.skipped();
    let mut meta = meta(Vec::new());
    meta.album_pic = album_pic.to_string();
    NcmFile::from_header(1u8, header, meta)
}

#[test]
fn cover_is_fetched_only_if_missing() {
    let mut ncm = opened(&[], "https://example.com/pic.jpg");
    assert_eq!(ncm.missing_cover_url().unwrap(), "https://example.com/pic.jpg");
    assert_eq!(ncm.finish_fetch(Err("offline")), Err("offline"));
    assert!(ncm.meta().cover.is_empty());
    assert_eq!(ncm.finish_fetch::<()>(Ok(vec![1, 2])), Ok(()));
    assert_eq!(ncm.meta().cover, [1, 2]);
    assert!(ncm.missing_cover_url().is_none());

    assert!(opened(&[7], "https://example.com/pic.jpg").missing_cover_url().is_none());
    assert!(opened(&[], "").missing_cover_url().is_none());
}

#[test]
fn opened_file_gives_up_its_parts() {
    let mut ncm = opened(&[7], "");
    let mut buf = [BODY[0], BODY[1], 0];
    ncm.finish_read(&mut buf, 2);
    assert_eq!(&buf, b"fL\0");
    *ncm.file_mut() += 1;
    assert_eq!(*ncm.file_mut(), 2);
    let (meta, mut key) = ncm.into_parts();
    assert_eq!(meta.cover, [7]);
    let mut rest = BODY[2..].to_vec();
    key.apply(&mut rest);
    assert_eq!(rest, b"aC audio");
    let mut key = opened(&[], "").into_cipher();
    let mut body = BODY;
    key.apply(&mut body);
    assert_eq!(&body, b"fLaC audio");
}
