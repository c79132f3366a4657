//! Track metadata, and the rules by which its loosely typed JSON fields are read.
use crate::error::{invalid, NcmError};
use vstd::prelude::*;

verus! {

/// The metadata of a track.
#[derive(Debug, Clone)]
pub struct Meta {
    pub album: String,
    pub album_id: String,
    /// The URL of the cover image.
    pub album_pic: String,
    pub album_pic_doc_id: String,
    pub alias: Vec<String>,
    pub artist: Vec<Artist>,
    pub bitrate: usize,
    pub duration: usize,
    pub fee: Option<usize>,
    pub flag: Option<usize>,
    pub format: String,
    pub mp3_doc_id: Option<String>,
    /// The IEEE 754 bits of the gain, a double-precision number.
    pub gain: Option<u64>,
    pub music_id: String,
    pub music_name: String,
    pub mv_id: String,
    pub trans_names: Vec<String>,
    /// The cover image; it is stored beside the JSON text, not in it.
    pub cover: Vec<u8>,
}

/// An artist of a track.
#[derive(Debug, Clone)]
pub struct Artist {
    pub name: String,
    pub id: String,
}

/// A JSON value, as far as the metadata rules tell values apart. Numbers are held by their text.
#[derive(Debug)]
pub enum JsonValue {
    Text(String),
    Number(String),
    Array(Vec<JsonValue>),
    Other,
}

/// The text of a field that may be written as a string or as a number.
pub open spec fn text_or_number(value: JsonValue) -> Option<Seq<char>> {
    match value {
        JsonValue::Text(text) => Some(text@),
        JsonValue::Number(text) => Some(text@),
        _ => None,
    }
}

/// The name and the id of an artist, written as an array of exactly these two: the name a string,
/// the id a string or a number.
pub open spec fn artist_in_json(value: JsonValue) -> Option<(Seq<char>, Seq<char>)> {
    match value {
        JsonValue::Array(items) => if items@.len() == 2 {
            match (items@[0], text_or_number(items@[1])) {
                (JsonValue::Text(name), Some(id)) => Some((name@, id)),
                _ => None,
            }
        } else {
            None
        },
        _ => None,
    }
}

/// Reads a field that may be written as a string or as a number.
pub fn deserialize_to_string(value: &JsonValue) -> (text: Result<String, NcmError>)
    ensures
        match text {
            Ok(text) => text_or_number(*value) == Some(text@),
            Err(error) => text_or_number(*value) is None && error@ == "Invalid value"@,
        },
        *value matches JsonValue::Text(whole) ==> text matches Ok(read) && read@ == whole@,
        *value matches JsonValue::Number(whole) ==> text matches Ok(read) && read@ == whole@,
        (*value is Array || *value is Other) ==> text is Err,
{
    match value {
        JsonValue::Text(text) => Ok(text.clone()),
        JsonValue::Number(text) => Ok(text.clone()),
        _ => Err(invalid("Invalid value")),
    }
}

/// The form in which an artist is written: an array of the name and the id, both strings.
pub open spec fn is_artist_json(value: JsonValue, artist: Artist) -> bool {
    &&& value matches JsonValue::Array(items)
    &&& items@.len() == 2
    &&& items@[0] matches JsonValue::Text(name)
    &&& items@[1] matches JsonValue::Text(id)
    &&& name@ == artist.name@
    &&& id@ == artist.id@
}

/// Reading an artist that was written gives its name and its id back.
pub proof fn law_artist_round_trip(value: JsonValue, artist: Artist)
    requires
        is_artist_json(value, artist),
    ensures
        artist_in_json(value) == Some((artist.name@, artist.id@)),
{
}

impl Artist {
    /// The array form of the artist.
    pub fn serialize(&self) -> (value: JsonValue)
        ensures
            is_artist_json(value, *self),
    {
        let mut items: Vec<JsonValue> = Vec::new();
        items.push(JsonValue::Text(self.name.clone()));
        items.push(JsonValue::Text(self.id.clone()));
        JsonValue::Array(items)
    }

    /// Reads an artist from its array form.
    pub fn deserialize(value: &JsonValue) -> (artist: Result<Artist, NcmError>)
        ensures
            match artist {
                Ok(artist) => artist_in_json(*value) == Some((artist.name@, artist.id@)),
                Err(error) => artist_in_json(*value) is None && error@ == "Invalid value"@,
            },
    {
        match value {
            JsonValue::Array(items) => {
                if items.len() != 2 {
                    return Err(invalid("Invalid value"));
                }
                match &items[0] {
                    JsonValue::Text(name) => match deserialize_to_string(&items[1]) {
                        Ok(id) => Ok(Artist { name: name.clone(), id }),
                        Err(error) => Err(error),
                    },
                    _ => Err(invalid("Invalid value")),
                }
            },
            _ => Err(invalid("Invalid value")),
        }
    }
}

impl Meta {
    /// `self` is `before` with the cover image `cover`, and otherwise unchanged.
    pub open spec fn is_with_cover(self, before: Meta, cover: Seq<u8>) -> bool {
        &&& self.cover@ == cover
        &&& self == (Meta { cover: self.cover, ..before })
    }

    /// The URL that a missing cover can be had from: that of the album picture, if the cover is
    /// empty and there is such a URL.
    pub open spec fn missing_cover(self) -> Option<Seq<char>> {
        if self.cover@.len() == 0 && self.album_pic@.len() > 0 {
            Some(self.album_pic@)
        } else {
            None
        }
    }

    /// Where to fetch the cover from, if it has to be fetched.
    pub fn missing_cover_url(&self) -> (url: Option<&String>)
        ensures
            match url {
                Some(url) => self.missing_cover() == Some(url@),
                None => self.missing_cover() is None,
            },
    {
        if self.cover.len() == 0 && !self.album_pic.as_str().is_empty() {
            Some(&self.album_pic)
        } else {
            None
        }
    }

    /// Replaces the cover image.
    pub fn set_cover(&mut self, cover: Vec<u8>)
        ensures
            final(self).is_with_cover(*old(self), cover@),
    {
        self.cover = cover;
    }
}

/// Metadata that was parsed from a text without the cover, and then given the cover of the
/// metadata that the text was written from, is that metadata.
pub proof fn law_cover_is_restored(written: Meta, parsed: Meta, opened: Meta)
    requires
        parsed.is_with_cover(written, Seq::empty()),
        opened.is_with_cover(parsed, written.cover@),
    ensures
        opened.is_with_cover(written, written.cover@),
{
}

/// A cover that was fetched and is not empty is not fetched again.
pub proof fn law_cover_is_fetched_once(before: Meta, cover: Seq<u8>, after: Meta)
    requires
        after.is_with_cover(before, cover),
        cover.len() > 0,
    ensures
        after.missing_cover() is None,
{
}

/// A field written as a number is read as the whole text of the number, just as a field written as
/// a string is read as the whole string; nothing else is read at all.
pub proof fn law_number_is_read_as_its_text(text: String, items: Vec<JsonValue>)
    ensures
        text_or_number(JsonValue::Number(text)) == Some(text@),
        text_or_number(JsonValue::Number(text)) == text_or_number(JsonValue::Text(text)),
        text_or_number(JsonValue::Array(items)) is None,
        text_or_number(JsonValue::Other) is None,
{
}

/// An artist is read from exactly those values that are an array of two: a string, which is the
/// name, and a string or a number, the whole text of which is the id.
pub proof fn law_artist_is_name_and_id(value: JsonValue, name: Seq<char>, id: Seq<char>)
    ensures
        artist_in_json(value) == Some((name, id)) <==> (value matches JsonValue::Array(items)
            && items@.len() == 2 && (items@[0] matches JsonValue::Text(first) && first@ == name) && (
        (items@[1] matches JsonValue::Text(second) && second@ == id) || (
        items@[1] matches JsonValue::Number(second) && second@ == id))),
{
}

/// A string id and a number id of the same text name the same artist.
pub proof fn law_number_id_is_string_id(a: JsonValue, b: JsonValue, name: String, id: String)
    requires
        a matches JsonValue::Array(items) && items@ == seq![
            JsonValue::Text(name),
            JsonValue::Text(id),
        ],
        b matches JsonValue::Array(items) && items@ == seq![
            JsonValue::Text(name),
            JsonValue::Number(id),
        ],
    ensures
        artist_in_json(a) == Some((name@, id@)),
        artist_in_json(b) == Some((name@, id@)),
{
}

/// The cover is fetched exactly if it is empty and the album has a picture, and then from the whole
/// URL of that picture.
pub proof fn law_only_a_missing_cover_is_fetched(meta: Meta, url: Seq<char>)
    ensures
        meta.missing_cover() == Some(url) <==> (meta.cover@ == Seq::<u8>::empty() && meta.album_pic@
            == url && url.len() > 0),
        meta.missing_cover() is None <==> (meta.cover@.len() > 0 || meta.album_pic@.len() == 0),
{
    assert(meta.cover@.len() == 0 ==> meta.cover@ =~= Seq::<u8>::empty());
}

/// Giving metadata a cover changes the cover to the whole of it, and no other field.
pub proof fn law_only_the_cover_changes(after: Meta, before: Meta, cover: Seq<u8>)
    requires
        after.is_with_cover(before, cover),
    ensures
        after.cover@ == cover,
        after.album == before.album,
        after.album_id == before.album_id,
        after.album_pic == before.album_pic,
        after.album_pic_doc_id == before.album_pic_doc_id,
        after.alias == before.alias,
        after.artist == before.artist,
        after.bitrate == before.bitrate,
        after.duration == before.duration,
        after.fee == before.fee,
        after.flag == before.flag,
        after.format == before.format,
        after.mp3_doc_id == before.mp3_doc_id,
        after.gain == before.gain,
        after.music_id == before.music_id,
        after.music_name == before.music_name,
        after.mv_id == before.mv_id,
        after.trans_names == before.trans_names,
{
}

/// An artist is written as an array of exactly two strings, the whole name and the whole id.
pub proof fn law_artist_is_written_in_full(value: JsonValue, artist: Artist)
    requires
        is_artist_json(value, artist),
    ensures
        value matches JsonValue::Array(items) && items@.len() == 2 && (
        items@[0] matches JsonValue::Text(name) && name@ == artist.name@) && (
        items@[1] matches JsonValue::Text(id) && id@ == artist.id@),
{
}

} // verus!
