use id3::TagLike;
use ncmc_lib::meta::{deserialize_to_string, JsonValue};
use ncmc_lib::tag::{join_names, tag_from_meta};
use ncmc_lib::{Artist, Meta};

fn text(s: &str) -> JsonValue {
    JsonValue::Text(s.to_string())
}

fn number(s: &str) -> JsonValue {
    JsonValue::Number(s.to_string())
}

fn artist(name: &str) -> Artist {
    Artist { name: name.to_string(), id: "1".to_string() }
}

fn meta(artist: Vec<Artist>, duration: usize) -> Meta {
    Meta {
        album: "The Album".to_string(),
        album_id: String::new(),
        album_pic: String::new(),
        album_pic_doc_id: String::new(),
        alias: Vec::new(),
        artist,
        bitrate: 0,
        duration,
        fee: None,
        flag: None,
        format: "mp3".to_string(),
        mp3_doc_id: None,
        gain: None,
        music_id: String::new(),
        music_name: "The Title".to_string(),
        mv_id: String::new(),
        trans_names: Vec::new(),
        cover: vec![0xff, 0xd8],
    }
}

#[test]
fn strings_and_numbers_are_text() {
    assert_eq!(deserialize_to_string(&text("abc")).unwrap(), "abc");
    assert_eq!(deserialize_to_string(&number("42")).unwrap(), "42");
    for value in [JsonValue::Other, JsonValue::Array(vec![text("a")])] {
        assert_eq!(deserialize_to_string(&value).unwrap_err().message(), "Invalid value");
    }
}

#[test]
fn artists_are_pairs() {
    for id in [text("7"), number("7")] {
        let parsed = Artist::deserialize(&JsonValue::Array(vec![text("Name"), id])).unwrap();
        assert_eq!(parsed.name, "Name");
        assert_eq!(parsed.id, "7");
    }
    for value in [
        text("Name"),
        JsonValue::Other,
        JsonValue::Array(vec![]),
        JsonValue::Array(vec![text("Name")]),
        JsonValue::Array(vec![text("Name"), text("7"), text("8")]),
        JsonValue::Array(vec![number("1"), number("7")]),
        JsonValue::Array(vec![text("Name"), JsonValue::Other]),
    ] {
        assert_eq!(Artist::deserialize(&value).unwrap_err().message(), "Invalid value");
    }
}

#[test]
fn written_artists_are_read_back() {
    for (name, id) in [("Name", "7"), ("", ""), ("V.W.P", "x")] {
        let artist = Artist { name: name.to_string(), id: id.to_string() };
        let value = artist.serialize();
        match &value {
            JsonValue::Array(items) => {
                assert_eq!(items.len(), 2);
                assert!(matches!(&items[0], JsonValue::Text(text) if text == name));
                assert!(matches!(&items[1], JsonValue::Text(text) if text == id));
            }
            other => panic!("unexpected: {:?}", other),
        }
        let read = Artist::deserialize(&value).unwrap();
        assert_eq!(read.name, name);
        assert_eq!(read.id, id);
    }
}

#[test]
fn names_are_joined() {
    assert_eq!(join_names(&vec![]), "");
    assert_eq!(join_names(&vec![artist("A")]), "A");
    assert_eq!(join_names(&vec![artist("A"), artist("B"), artist("C")]), "A, B, C");
    assert_eq!(join_names(&vec![artist("A"), artist(""), artist("C")]), "A, , C");
    assert_eq!(join_names(&vec![artist(""), artist("B")]), "B");
}

#[test]
fn tag_of_a_track() {
    let tag = tag_from_meta(&meta(vec![artist("A"), artist("B")], 237000));
    assert_eq!(tag.album(), Some("The Album"));
    assert_eq!(tag.artist(), Some("A, B"));
    assert_eq!(tag.title(), Some("The Title"));
    assert_eq!(tag.duration(), Some(237000));
    assert_eq!(tag.get("TLEN").unwrap().content().text(), Some("237000"));
    assert_eq!(tag.frames().count(), 5);
    let pictures: Vec<&id3::frame::Picture> = tag.pictures().collect();
    assert_eq!(pictures.len(), 1);
    assert_eq!(pictures[0].mime_type, "image/jpeg");
    assert_eq!(pictures[0].picture_type, id3::frame::PictureType::CoverFront);
    assert_eq!(pictures[0].description, "Cover");
    assert_eq!(pictures[0].data, [0xff, 0xd8]);
}

#[test]
fn tag_duration_is_cut_to_32_bits() {
    let tag = tag_from_meta(&meta(vec![], (1usize << 32) + 9));
    assert_eq!(tag.duration(), Some(9));
    assert_eq!(tag.artist(), Some(""));
}
