use ncmc_lib::decode::{decode_ncm, Skipping};
use ncmc_lib::encode::encode_ncm;
use ncmc_lib::header::{HeaderParser, HeaderStep};
use ncmc_lib::meta::{deserialize_to_string, JsonValue};
use ncmc_lib::stream::{NcmStream, Progress};
use ncmc_lib::{Artist, Meta, NcmFile};
use serde_json::Value;

fn json_value(value: &Value) -> JsonValue {
    match value {
        Value::String(text) => JsonValue::Text(text.clone()),
        Value::Number(number) => JsonValue::Number(number.to_string()),
        Value::Array(items) => JsonValue::Array(items.iter().map(json_value).collect()),
        _ => JsonValue::Other,
    }
}

fn text(object: &Value, name: &str) -> String {
    object.get(name).and_then(|v| v.as_str()).unwrap().to_string()
}

fn loose(object: &Value, name: &str) -> String {
    deserialize_to_string(&json_value(object.get(name).unwrap())).unwrap()
}

fn parse_meta(json: &[u8]) -> Meta {
    let v: Value = serde_json::from_slice(json).unwrap();
    let artists = v.get("artist").and_then(|a| a.as_array()).unwrap();
    Meta {
        album: text(&v, "album"),
        album_id: loose(&v, "albumId"),
        album_pic: text(&v, "albumPic"),
        album_pic_doc_id: loose(&v, "albumPicDocId"),
        alias: Vec::new(),
        artist: artists.iter().map(|a| Artist::deserialize(&json_value(a)).unwrap()).collect(),
        bitrate: v.get("bitrate").and_then(|n| n.as_u64()).unwrap() as usize,
        duration: v.get("duration").and_then(|n| n.as_u64()).unwrap() as usize,
        fee: None,
        flag: None,
        format: text(&v, "format"),
        mp3_doc_id: None,
        gain: None,
        music_id: loose(&v, "musicId"),
        music_name: text(&v, "musicName"),
        mv_id: loose(&v, "mvId"),
        trans_names: Vec::new(),
        cover: Vec::new(),
    }
}

const JSON: &str = r#"{"album":"シリウスの心臓","albumId":137420811,"albumPic":"https://example.com/a.jpg",
"albumPicDocId":"109951166770436510","artist":[["ヰ世界情緒",35135124],["V.W.P","46236217"]],
"bitrate":320000,"duration":237000,"format":"mp3","musicId":1909599302,
"musicName":"シリウスの心臓","mvId":0}"#;

/// The metadata, audio and bytes of a container that takes several chunks.
fn fixture() -> (Meta, Vec<u8>, Vec<u8>) {
    let mut meta = parse_meta(JSON.as_bytes());
    meta.set_cover(vec![0xff, 0xd8, 0xff, 0xe0, 0x00]);
    let audio: Vec<u8> = (0u32..20000).map(|i| (i * i / 7 + i) as u8).collect();
    let bytes = encode_ncm(&meta, JSON.as_bytes(), &[9, 8, 7, 6], &audio);
    (meta, audio, bytes)
}

/// Decodes as from an open file: header step by step, then reads of a few hundred bytes.
fn sync_decode(bytes: &[u8]) -> (Meta, Vec<u8>) {
    let mut pos = 0;
    let mut header = HeaderParser::new();
    let mut meta = None;
    loop {
        match header.step() {
            HeaderStep::Read(n) => {
                assert!(header.image_fits());
                header.feed(&bytes[pos..pos + n]).unwrap();
                pos += n;
            }
            HeaderStep::AcceptKey => {
                assert!(!header.key_data().is_empty());
                header.accept_key();
            }
            HeaderStep::AcceptMetadata => {
                meta = Some(parse_meta(header.json()));
                header.accept_metadata();
            }
            HeaderStep::Skip(n) => {
                pos += n;
                header.skipped();
            }
            HeaderStep::Done => break,
        }
    }
    let mut ncm = NcmFile::from_header(&bytes[pos..], header, meta.unwrap());
    let mut audio = Vec::new();
    loop {
        let mut buf = [0u8; 300];
        let source: &mut &[u8] = ncm.file_mut();
        let size = source.len().min(buf.len());
        buf[..size].copy_from_slice(&source[..size]);
        *source = &source[size..];
        if size == 0 {
            break;
        }
        ncm.finish_read(&mut buf, size);
        audio.extend_from_slice(&buf[..size]);
    }
    (ncm.into_parts().0, audio)
}

/// Decodes from small chunks, which cut the header anywhere.
fn stream_decode(bytes: Vec<u8>) -> (Meta, Vec<u8>) {
    let mut chunks: Vec<Vec<u8>> = bytes.chunks(7).map(|c| c.to_vec()).collect();
    chunks.reverse();
    let mut unread: Vec<u8> = Vec::new();
    let mut header = HeaderParser::new();
    let mut meta = None;
    loop {
        match header.step() {
            HeaderStep::Read(n) => {
                while unread.len() < n {
                    unread.extend(chunks.pop().unwrap());
                }
                assert!(header.image_fits());
                let data: Vec<u8> = unread.drain(..n).collect();
                header.feed(&data).unwrap();
            }
            HeaderStep::AcceptKey => header.accept_key(),
            HeaderStep::AcceptMetadata => {
                meta = Some(parse_meta(header.json()));
                header.accept_metadata();
            }
            HeaderStep::Skip(n) => {
                while unread.len() < n {
                    unread.extend(chunks.pop().unwrap());
                }
                unread.drain(..n);
                header.skipped();
            }
            HeaderStep::Done => break,
        }
    }
    let mut stream = NcmStream::from_header((), header, meta.unwrap());
    let mut audio = Vec::new();
    loop {
        let mut buf = [0u8; 8192];
        if unread.is_empty() {
            unread = chunks.pop().unwrap_or_default();
        }
        buf[..unread.len()].copy_from_slice(&unread);
        let polled: Progress<Result<usize, ()>> = Progress::Ready(Ok(unread.len()));
        unread.clear();
        match stream.finish_poll(&mut buf, polled) {
            Progress::Ready(Some(chunk)) => audio.extend_from_slice(&chunk.unwrap()),
            Progress::Ready(None) => break,
            Progress::Pending => unreachable!(),
        }
    }
    (stream.meta().clone(), audio)
}

#[test]
fn stream_decode_matches_sync() {
    let (_, _, bytes) = fixture();
    let (meta_sync, audio_sync) = sync_decode(&bytes);
    let (meta_stream, audio_stream) = stream_decode(bytes);

    assert_eq!(audio_stream, audio_sync, "stream decode != sync decode");
    assert_eq!(meta_stream.music_name, meta_sync.music_name);
    assert_eq!(meta_stream.cover, meta_sync.cover);
}

#[test]
fn encode_decode_roundtrip() {
    let (meta, audio) = sync_decode(&fixture().2);

    let key_data: Vec<u8> = (0u8..=200).collect();
    let encoded = encode_ncm(&meta, JSON.as_bytes(), &key_data, &audio);
    let (meta_re, audio_re) = stream_decode(encoded);

    assert_eq!(audio_re, audio, "audio bytes mismatch after re-encode");
    assert_eq!(meta_re.music_name, meta.music_name);
    assert_eq!(meta_re.format, meta.format);
    assert_eq!(meta_re.music_name, "シリウスの心臓");
    assert_eq!(meta_re.format, "mp3");
    assert_eq!(meta_re.cover, vec![0xff, 0xd8, 0xff, 0xe0, 0x00]);
}

#[test]
fn whole_decode_matches_sync() {
    let (meta, audio, bytes) = fixture();
    let decoded = decode_ncm(&bytes, Skipping::Reading).unwrap();
    assert_eq!(decoded.audio, audio);
    assert_eq!(decoded.cover, meta.cover);
    assert_eq!(decoded.json, JSON.as_bytes());
    assert_eq!(decoded.key_data, vec![9, 8, 7, 6]);
    assert_eq!(sync_decode(&bytes).1, audio);
}

#[test]
fn any_nonempty_key_is_decodable() {
    let (meta, audio, _) = fixture();
    for len in [1usize, 2, 14, 15, 16, 255, 256, 257, 600] {
        let key_data: Vec<u8> = (0..len).map(|i| (i * 31 + len) as u8).collect();
        let encoded = encode_ncm(&meta, b"{}", &key_data, &audio[..500]);
        let decoded = decode_ncm(&encoded, Skipping::Reading).unwrap();
        assert_eq!(decoded.key_data, key_data);
        assert_eq!(decoded.audio, &audio[..500]);
    }
}
