//! The ID3 tag of a decoded track.
//!
//! What a tag of the `id3` crate holds is named, and what the crate's functions do to it is taken
//! on trust; each contract says what.
use crate::meta::{Artist, Meta};
use id3::frame::{Picture, PictureType};
use id3::{Tag, TagLike};
use vstd::prelude::*;

verus! {

/// An ID3 tag.
#[verifier::external_type_specification]
#[verifier::external_body]
pub struct ExTag(id3::Tag);

/// The text frames of a tag: for each frame identifier the text that was set last.
pub uninterp spec fn tag_texts(tag: id3::Tag) -> Map<Seq<char>, Seq<char>>;

/// The pictures of a tag, in order: MIME type, picture type, description and data of each.
pub uninterp spec fn tag_pictures(tag: id3::Tag) -> Seq<(Seq<char>, u8, Seq<char>, Seq<u8>)>;

/// What a picture shows.
#[derive(Debug, Clone, Copy)]
pub enum PictureKind {
    /// The front cover.
    CoverFront,
}

impl PictureKind {
    /// The picture type in a picture frame.
    pub open spec fn code(self) -> u8 {
        match self {
            PictureKind::CoverFront => 3,
        }
    }
}

/// The decimal digits of `n`.
pub open spec fn decimal(n: nat) -> Seq<char>
    decreases n,
{
    let digit = (48 + n % 10) as char;
    if n < 10 {
        seq![digit]
    } else {
        decimal(n / 10).push(digit)
    }
}

/// `Tag::new`. Trusted: the tag holds no frames.
#[verifier::external_body]
fn new_tag() -> (tag: Tag)
    ensures
        tag_texts(tag).is_empty(),
        tag_pictures(tag).len() == 0,
{
    Tag::new()
}

/// `TagLike::set_album`. Trusted: the text of the `TALB` frame becomes `album`, nothing else
/// changes.
#[verifier::external_body]
fn set_album(tag: &mut Tag, album: String)
    ensures
        tag_texts(*final(tag)) == tag_texts(*old(tag)).insert("TALB"@, album@),
        tag_pictures(*final(tag)) == tag_pictures(*old(tag)),
{
    tag.set_album(album);
}

/// `TagLike::set_artist`. Trusted: the text of the `TPE1` frame becomes `artist`, nothing else
/// changes.
#[verifier::external_body]
fn set_artist(tag: &mut Tag, artist: String)
    ensures
        tag_texts(*final(tag)) == tag_texts(*old(tag)).insert("TPE1"@, artist@),
        tag_pictures(*final(tag)) == tag_pictures(*old(tag)),
{
    tag.set_artist(artist);
}

/// `TagLike::set_title`. Trusted: the text of the `TIT2` frame becomes `title`, nothing else
/// changes.
#[verifier::external_body]
fn set_title(tag: &mut Tag, title: String)
    ensures
        tag_texts(*final(tag)) == tag_texts(*old(tag)).insert("TIT2"@, title@),
        tag_pictures(*final(tag)) == tag_pictures(*old(tag)),
{
    tag.set_title(title);
}

/// `TagLike::set_duration`. Trusted: the text of the `TLEN` frame becomes `duration` in decimal
/// digits, nothing else changes.
#[verifier::external_body]
fn set_duration(tag: &mut Tag, duration: u32)
    ensures
        tag_texts(*final(tag)) == tag_texts(*old(tag)).insert("TLEN"@, decimal(duration as nat)),
        tag_pictures(*final(tag)) == tag_pictures(*old(tag)),
{
    tag.set_duration(duration);
}

/// `TagLike::add_frame` of a picture. Trusted: the picture comes last, no other picture is lost if
/// none has the same type, and no text changes. Whether a picture of the same type is lost is left
/// unsaid.
#[verifier::external_body]
fn add_picture(
    tag: &mut Tag,
    mime_type: String,
    kind: PictureKind,
    description: String,
    data: Vec<u8>,
)
    ensures
        tag_pictures(*final(tag)).len() > 0,
        tag_pictures(*final(tag)).last() == (mime_type@, kind.code(), description@, data@),
        (forall|i: int|
            0 <= i < tag_pictures(*old(tag)).len() ==> (#[trigger] tag_pictures(*old(tag))[i]).1
                != kind.code()) ==> tag_pictures(*final(tag)) == tag_pictures(*old(tag)).push(
            (mime_type@, kind.code(), description@, data@),
        ),
        tag_texts(*final(tag)) == tag_texts(*old(tag)),
{
    let picture_type = match kind {
        PictureKind::CoverFront => PictureType::CoverFront,
    };
    tag.add_frame(Picture { mime_type, picture_type, description, data });
}

/// The names of artists as one text: separated by a comma and a space, where there is anything
/// before to be separated from.
pub open spec fn joined_names(artists: Seq<Artist>) -> Seq<char>
    decreases artists.len(),
{
    if artists.len() == 0 {
        Seq::empty()
    } else {
        let before = joined_names(artists.drop_last());
        if before.len() == 0 {
            artists.last().name@
        } else {
            before + ", "@ + artists.last().name@
        }
    }
}

/// The names of artists, a comma and a space between each two.
pub open spec fn comma_separated(artists: Seq<Artist>) -> Seq<char>
    decreases artists.len(),
{
    if artists.len() == 0 {
        Seq::empty()
    } else if artists.len() == 1 {
        artists[0].name@
    } else {
        comma_separated(artists.drop_last()) + ", "@ + artists.last().name@
    }
}

/// The artists of a tag are the names separated by a comma and a space, if the first name is not
/// empty.
pub proof fn law_names_are_comma_separated(artists: Seq<Artist>)
    requires
        artists.len() > 0 ==> artists[0].name@.len() > 0,
    ensures
        joined_names(artists) == comma_separated(artists),
        artists.len() > 0 ==> joined_names(artists).len() > 0,
    decreases artists.len(),
{
    if artists.len() == 1 {
        assert(joined_names(artists.drop_last()) =~= Seq::<char>::empty());
    } else if artists.len() > 1 {
        law_names_are_comma_separated(artists.drop_last());
    }
}

/// Joins the names of artists for the artist frame.
pub fn join_names(artists: &Vec<Artist>) -> (joined: String)
    ensures
        joined@ == joined_names(artists@),
{
    let mut joined = String::new();
    let mut i: usize = 0;
    while i < artists.len()
        invariant
            i <= artists@.len(),
            joined@ == joined_names(artists@.take(i as int)),
        decreases artists@.len() - i,
    {
        assert(artists@.take(i + 1).drop_last() =~= artists@.take(i as int));
        if joined.as_str().is_empty() {
            joined = artists[i].name.clone();
        } else {
            joined.append(", ");
            joined.append(artists[i].name.as_str());
        }
        i = i + 1;
    }
    assert(artists@.take(i as int) =~= artists@);
    joined
}

/// The texts in the tag of a track.
pub open spec fn texts_of(meta: Meta) -> Map<Seq<char>, Seq<char>> {
    map![
        "TALB"@ => meta.album@,
        "TPE1"@ => joined_names(meta.artist@),
        "TLEN"@ => decimal((meta.duration as int % 0x1_0000_0000) as nat),
        "TIT2"@ => meta.music_name@,
    ]
}

/// Makes the tag of a track: album, front cover, artists, duration and title.
///
/// The duration is taken modulo 2^32, which is what a tag can be given.
pub fn tag_from_meta(meta: &Meta) -> (tag: Tag)
    ensures
        tag_texts(tag) == texts_of(*meta),
        tag_texts(tag)["TIT2"@] == meta.music_name@,
        tag_texts(tag)["TALB"@] == meta.album@,
        tag_texts(tag)["TPE1"@] == joined_names(meta.artist@),
        tag_texts(tag)["TLEN"@] == decimal((meta.duration as int % 0x1_0000_0000) as nat),
        tag_texts(tag).dom() == set!["TIT2"@, "TALB"@, "TPE1"@, "TLEN"@],
        tag_pictures(tag) == seq![("image/jpeg"@, 3u8, "Cover"@, meta.cover@)],
{
    let mut tag = new_tag();
    set_album(&mut tag, meta.album.clone());
    add_picture(
        &mut tag,
        "image/jpeg".to_string(),
        PictureKind::CoverFront,
        "Cover".to_string(),
        vstd::slice::slice_to_vec(meta.cover.as_slice()),
    );
    set_artist(&mut tag, join_names(&meta.artist));
    let duration: u32 = (meta.duration as u64 % 0x1_0000_0000) as u32;
    set_duration(&mut tag, duration);
    set_title(&mut tag, meta.music_name.clone());
    assert(tag_texts(tag) =~= texts_of(*meta));
    proof {
        law_tag_tells_the_track(*meta);
    }
    assert(tag_pictures(tag) =~= seq![("image/jpeg"@, 3u8, "Cover"@, meta.cover@)]);
    tag
}

/// The tag of a track has four texts and no more: the title is the name of the track, the album its
/// album, the artists their joined names, and the length the digits of the duration modulo 2^32.
pub proof fn law_tag_tells_the_track(meta: Meta)
    ensures
        texts_of(meta)["TIT2"@] == meta.music_name@,
        texts_of(meta)["TALB"@] == meta.album@,
        texts_of(meta)["TPE1"@] == joined_names(meta.artist@),
        texts_of(meta)["TLEN"@] == decimal((meta.duration as int % 0x1_0000_0000) as nat),
        texts_of(meta).dom() == set!["TIT2"@, "TALB"@, "TPE1"@, "TLEN"@],
{
    reveal_strlit("TIT2");
    reveal_strlit("TALB");
    reveal_strlit("TPE1");
    reveal_strlit("TLEN");
    assert("TIT2"@[1] != "TALB"@[1] && "TIT2"@[1] != "TPE1"@[1] && "TIT2"@[1] != "TLEN"@[1]);
    assert("TALB"@[1] != "TPE1"@[1] && "TALB"@[1] != "TLEN"@[1] && "TPE1"@[1] != "TLEN"@[1]);
    assert(texts_of(meta).dom() =~= set!["TIT2"@, "TALB"@, "TPE1"@, "TLEN"@]);
}

/// Tracks that agree in name, album, artists and duration have the same texts in their tags,
/// whatever else is known of them.
pub proof fn law_tag_depends_on_nothing_else(a: Meta, b: Meta)
    requires
        a.music_name@ == b.music_name@,
        a.album@ == b.album@,
        a.artist@ == b.artist@,
        a.duration == b.duration,
    ensures
        texts_of(a) == texts_of(b),
{
}

/// The digits of a number below ten are one digit; ten times a number and a digit more has the
/// digits of the number, followed by that digit.
pub proof fn law_decimal_digits(n: nat, d: nat)
    requires
        d < 10,
    ensures
        decimal(d) == seq!["0123456789"@[d as int]],
        n > 0 ==> decimal(10 * n + d) == decimal(n).push("0123456789"@[d as int]),
{
    reveal_strlit("0123456789");
    assert((10 * n + d) % 10 == d && (10 * n + d) / 10 == n);
    assert("0123456789"@[d as int] == (48 + d) as char);
}

/// No artist gives no text. One more artist adds its whole name, behind a comma and a space if
/// there is any text yet.
pub proof fn law_names_grow_by_one(artists: Seq<Artist>, artist: Artist)
    ensures
        joined_names(Seq::<Artist>::empty()) == Seq::<char>::empty(),
        joined_names(artists).len() == 0 ==> joined_names(artists.push(artist)) == artist.name@,
        joined_names(artists).len() > 0 ==> joined_names(artists.push(artist)) == joined_names(
            artists,
        ).push(',').push(' ') + artist.name@,
{
    reveal_strlit(", ");
    assert(artists.push(artist).drop_last() =~= artists);
    let before = joined_names(artists);
    assert(before + ", "@ =~= before.push(',').push(' '));
}

/// An artist without a name that comes first leaves no trace.
pub proof fn law_leading_empty_name_is_dropped(first: Artist, rest: Seq<Artist>)
    requires
        first.name@.len() == 0,
    ensures
        joined_names(seq![first] + rest) == joined_names(rest),
    decreases rest.len(),
{
    let all = seq![first] + rest;
    if rest.len() == 0 {
        assert(all.drop_last() =~= Seq::<Artist>::empty());
        assert(joined_names(all.drop_last()) =~= Seq::<char>::empty());
        assert(all.last() == first);
        assert(first.name@ =~= joined_names(rest));
    } else {
        assert(all.drop_last() =~= seq![first] + rest.drop_last());
        law_leading_empty_name_is_dropped(first, rest.drop_last());
    }
}

} // verus!
