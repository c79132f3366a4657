//! The layout of a `.ncm` container, and how decoding follows it.
use crate::decode::Skipping;
use crate::header::{HeaderStage, HeaderStep, MAGIC};
use vstd::prelude::*;

verus! {

use crate::blob::{json_in_blob, key_in_blob};
use crate::decode::{contents_of, read_header, Contents, Fault};
use crate::header::HeaderView;
use crate::key::KeyView;
use crate::octets::{law_le32_round_trip, law_le32_value_round_trip, le32, le32_value};

/// The parts of a container.
pub struct Layout {
    /// The two bytes after the magic.
    pub gap: Seq<u8>,
    pub key_blob: Seq<u8>,
    pub meta_blob: Seq<u8>,
    /// The five reserved bytes after the metadata.
    pub crc: Seq<u8>,
    pub image: Seq<u8>,
    /// What the cover frame holds beyond the image.
    pub padding: Seq<u8>,
    /// The encrypted audio.
    pub body: Seq<u8>,
}

impl Layout {
    /// The container that is made of these parts.
    pub open spec fn bytes(self) -> Seq<u8> {
        (MAGIC@ + self.gap) + (le32(self.key_blob.len() as int) + (self.key_blob + (le32(
            self.meta_blob.len() as int,
        ) + (self.meta_blob + (self.crc + (le32((self.image + self.padding).len() as int) + (le32(
            self.image.len() as int,
        ) + (self.image + (self.padding + self.body)))))))))
    }

    /// The parts have their lengths, and every length fits its four bytes.
    pub open spec fn sized(self) -> bool {
        &&& self.gap.len() == 2
        &&& self.crc.len() == 5
        &&& self.key_blob.len() < 0x1_0000_0000
        &&& self.meta_blob.len() < 0x1_0000_0000
        &&& (self.image + self.padding).len() < 0x1_0000_0000
    }

    /// The parts make a container that can be decoded: they are sized, the key blob holds a content
    /// key that is not empty, and the metadata blob holds a JSON text.
    pub open spec fn well_formed(self) -> bool {
        &&& self.sized()
        &&& key_in_blob(self.key_blob) matches Ok(key_data) && key_data.len() > 0
        &&& json_in_blob(self.meta_blob) is Ok
    }

    /// What a well-formed container holds.
    pub open spec fn contents(self) -> Contents {
        let key_data = key_in_blob(self.key_blob)->Ok_0;
        Contents {
            key_data,
            json: json_in_blob(self.meta_blob)->Ok_0,
            cover: self.image,
            audio: KeyView::from_key_data(key_data).transform(self.body),
        }
    }
}

proof fn lemma_read_step(
    at: HeaderView,
    chunk: Seq<u8>,
    rest: Seq<u8>,
    next: HeaderView,
    skipping: Skipping,
)
    requires
        at.stage.step() == HeaderStep::Read(chunk.len() as usize),
        chunk.len() <= usize::MAX,
        at.stage.image_fits(),
        at.after_read(chunk) == Ok::<_, Seq<char>>(next),
    ensures
        read_header(at, chunk + rest, skipping) == read_header(next, rest, skipping),
{
    reveal(read_header);
    assert((chunk + rest).take(chunk.len() as int) =~= chunk);
    assert((chunk + rest).skip(chunk.len() as int) =~= rest);
}

proof fn lemma_skip_step(at: HeaderView, chunk: Seq<u8>, rest: Seq<u8>, skipping: Skipping)
    requires
        at.stage.step() == HeaderStep::Skip(chunk.len() as usize),
        chunk.len() <= usize::MAX,
    ensures
        read_header(at, chunk + rest, skipping) == read_header(at.after_pass(), rest, skipping),
{
    reveal(read_header);
    assert((chunk + rest).skip(chunk.len() as int) =~= rest);
}

proof fn lemma_accept_step(at: HeaderView, rest: Seq<u8>, skipping: Skipping)
    ensures
        at.stage is Key && at.key_data.len() > 0 ==> read_header(at, rest, skipping) == read_header(
            at.after_pass(),
            rest,
            skipping,
        ),
        at.stage is Key && at.key_data.len() == 0 ==> read_header(at, rest, skipping) is Err,
        at.stage is Metadata ==> read_header(at, rest, skipping) == read_header(
            at.after_pass(),
            rest,
            skipping,
        ),
        at.stage is Done ==> read_header(at, rest, skipping) == Ok::<_, Fault>((at, rest)),
{
    reveal(read_header);
}

/// A well-formed container decodes to what its parts hold, whatever the two bytes after the
/// magic, the reserved bytes and the padding of the cover frame are.
pub proof fn law_well_formed_container_decodes(l: Layout, skipping: Skipping)
    requires
        l.well_formed(),
    ensures
        contents_of(l.bytes(), skipping) == Ok::<_, Fault>(l.contents()),
{
    let image_len = l.image.len() as int;
    let frame_len = (l.image + l.padding).len() as int;
    law_le32_round_trip(l.key_blob.len() as int);
    law_le32_round_trip(l.meta_blob.len() as int);
    law_le32_round_trip(frame_len);
    law_le32_round_trip(image_len);
    let c = l.contents();

    let r9 = l.padding + l.body;
    let r8 = l.image + r9;
    let r7 = le32(image_len) + r8;
    let r6 = le32(frame_len) + r7;
    let r5 = l.crc + r6;
    let r4 = l.meta_blob + r5;
    let r3 = le32(l.meta_blob.len() as int) + r4;
    let r2 = l.key_blob + r3;
    let r1 = le32(l.key_blob.len() as int) + r2;

    let h0 = HeaderView::start();
    let h1 = h0.at(HeaderStage::KeyLength);
    let magic = MAGIC@ + l.gap;
    assert(MAGIC@ =~= magic.subrange(0, 8));
    lemma_read_step(h0, magic, r1, h1, skipping);
    let h2 = h0.at(HeaderStage::KeyBlob { len: l.key_blob.len() as u32 });
    lemma_read_step(h1, le32(l.key_blob.len() as int), r2, h2, skipping);
    let h3 = HeaderView { stage: HeaderStage::Key, key_data: c.key_data, ..h0 };
    lemma_read_step(h2, l.key_blob, r3, h3, skipping);
    let h4 = h3.at(HeaderStage::MetaLength);
    lemma_accept_step(h3, r3, skipping);
    let h5 = h3.at(HeaderStage::MetaBlob { len: l.meta_blob.len() as u32 });
    lemma_read_step(h4, le32(l.meta_blob.len() as int), r4, h5, skipping);
    let h6 = HeaderView { stage: HeaderStage::Metadata, json: c.json, ..h3 };
    lemma_read_step(h5, l.meta_blob, r5, h6, skipping);
    let h7 = h6.at(HeaderStage::Crc);
    lemma_accept_step(h6, r5, skipping);
    let h8 = h6.at(HeaderStage::FrameLength);
    lemma_skip_step(h7, l.crc, r6, skipping);
    let h9 = h6.at(HeaderStage::ImageLength { frame_len: frame_len as u32 });
    lemma_read_step(h8, le32(frame_len), r7, h9, skipping);
    let h10 = h6.at(
        HeaderStage::Image { frame_len: frame_len as u32, image_len: image_len as u32 },
    );
    lemma_read_step(h9, le32(image_len), r8, h10, skipping);
    let h11 = HeaderView {
        stage: HeaderStage::Padding { len: l.padding.len() as u32 },
        cover: l.image,
        ..h6
    };
    lemma_read_step(h10, l.image, r9, h11, skipping);
    lemma_skip_step(h11, l.padding, l.body, skipping);
    let h12 = h11.at(HeaderStage::Done);
    lemma_accept_step(h12, l.body, skipping);
}

proof fn lemma_read_back(at: HeaderView, rest: Seq<u8>, n: int)
    requires
        read_header(at, rest, Skipping::Reading) is Ok,
        at.stage.step() == HeaderStep::Read(n as usize),
        0 <= n <= usize::MAX,
    ensures
        n <= rest.len(),
        at.stage.image_fits(),
        at.after_read(rest.take(n)) matches Ok(next) && read_header(
            next,
            rest.skip(n),
            Skipping::Reading,
        ) == read_header(at, rest, Skipping::Reading),
{
    reveal(read_header);
}

proof fn lemma_skip_back(at: HeaderView, rest: Seq<u8>, n: int)
    requires
        read_header(at, rest, Skipping::Reading) is Ok,
        at.stage.step() == HeaderStep::Skip(n as usize),
        0 <= n <= usize::MAX,
    ensures
        n <= rest.len(),
        read_header(at.after_pass(), rest.skip(n), Skipping::Reading) == read_header(
            at,
            rest,
            Skipping::Reading,
        ),
{
    reveal(read_header);
}

proof fn lemma_split(s: Seq<u8>, n: int)
    requires
        0 <= n <= s.len(),
    ensures
        s.take(n) + s.skip(n) == s,
{
    assert(s.take(n) + s.skip(n) =~= s);
}

/// What follows the metadata in a container that decodes.
proof fn lemma_cover_part(at: HeaderView, rest: Seq<u8>) -> (parts: (
    Seq<u8>,
    Seq<u8>,
    Seq<u8>,
    Seq<u8>,
))
    requires
        at.stage is Crc,
        read_header(at, rest, Skipping::Reading) is Ok,
    ensures
        ({
            let (crc, image, padding, body) = parts;
            &&& crc.len() == 5
            &&& (image + padding).len() < 0x1_0000_0000
            &&& rest == crc + (le32((image + padding).len() as int) + (le32(image.len() as int) + (
            image + (padding + body))))
            &&& read_header(at, rest, Skipping::Reading) == Ok::<_, Fault>(
                (HeaderView { stage: HeaderStage::Done, cover: image, ..at }, body),
            )
        }),
{
    let result = read_header(at, rest, Skipping::Reading);
    lemma_skip_back(at, rest, 5);
    let crc = rest.take(5);
    let r6 = rest.skip(5);
    let h8 = at.at(HeaderStage::FrameLength);
    assert(read_header(h8, r6, Skipping::Reading) == result);
    lemma_read_back(h8, r6, 4);
    let frame_len = le32_value(r6.take(4));
    let r7 = r6.skip(4);
    law_le32_value_round_trip(r6.take(4));
    let h9 = at.at(HeaderStage::ImageLength { frame_len: frame_len as u32 });
    lemma_read_back(h9, r7, 4);
    let image_len = le32_value(r7.take(4));
    let r8 = r7.skip(4);
    law_le32_value_round_trip(r7.take(4));
    let h10 = at.at(
        HeaderStage::Image { frame_len: frame_len as u32, image_len: image_len as u32 },
    );
    lemma_read_back(h10, r8, image_len);
    let image = r8.take(image_len);
    let r9 = r8.skip(image_len);
    let h11 = HeaderView {
        stage: HeaderStage::Padding { len: (frame_len - image_len) as u32 },
        cover: image,
        ..at
    };
    assert(read_header(h11, r9, Skipping::Reading) == result);
    lemma_skip_back(h11, r9, frame_len - image_len);
    let padding = r9.take(frame_len - image_len);
    let body = r9.skip(frame_len - image_len);
    let h12 = h11.at(HeaderStage::Done);
    lemma_accept_step(h12, body, Skipping::Reading);
    lemma_split(rest, 5);
    lemma_split(r6, 4);
    lemma_split(r7, 4);
    lemma_split(r8, image_len);
    lemma_split(r9, frame_len - image_len);
    assert((image + padding).len() == frame_len);
    (crc, image, padding, body)
}

/// The metadata blob in a container that decodes, and the rest of it.
proof fn lemma_meta_part(at: HeaderView, rest: Seq<u8>) -> (parts: (Seq<u8>, Seq<u8>))
    requires
        at.stage is MetaLength,
        read_header(at, rest, Skipping::Reading) is Ok,
    ensures
        ({
            let (meta_blob, rest2) = parts;
            &&& meta_blob.len() < 0x1_0000_0000
            &&& rest == le32(meta_blob.len() as int) + (meta_blob + rest2)
            &&& json_in_blob(meta_blob) matches Ok(json) && read_header(
                at,
                rest,
                Skipping::Reading,
            ) == read_header(
                HeaderView { stage: HeaderStage::Crc, json, ..at },
                rest2,
                Skipping::Reading,
            )
        }),
{
    let result = read_header(at, rest, Skipping::Reading);
    lemma_read_back(at, rest, 4);
    let meta_len = le32_value(rest.take(4));
    let r4 = rest.skip(4);
    law_le32_value_round_trip(rest.take(4));
    let h5 = at.at(HeaderStage::MetaBlob { len: meta_len as u32 });
    lemma_read_back(h5, r4, meta_len);
    let meta_blob = r4.take(meta_len);
    let r5 = r4.skip(meta_len);
    let json = json_in_blob(meta_blob)->Ok_0;
    let h6 = HeaderView { stage: HeaderStage::Metadata, json, ..at };
    lemma_accept_step(h6, r5, Skipping::Reading);
    lemma_split(rest, 4);
    lemma_split(r4, meta_len);
    (meta_blob, r5)
}

/// The two bytes after the magic and the key blob in a container that decodes, and the rest of it.
proof fn lemma_key_part(data: Seq<u8>) -> (parts: (Seq<u8>, Seq<u8>, Seq<u8>))
    requires
        read_header(HeaderView::start(), data, Skipping::Reading) is Ok,
    ensures
        ({
            let (gap, key_blob, rest) = parts;
            &&& gap.len() == 2
            &&& key_blob.len() < 0x1_0000_0000
            &&& data == (MAGIC@ + gap) + (le32(key_blob.len() as int) + (key_blob + rest))
            &&& key_in_blob(key_blob) matches Ok(key_data) && key_data.len() > 0 && read_header(
                HeaderView::start(),
                data,
                Skipping::Reading,
            ) == read_header(
                HeaderView { stage: HeaderStage::MetaLength, key_data, ..HeaderView::start() },
                rest,
                Skipping::Reading,
            )
        }),
{
    let h0 = HeaderView::start();
    let result = read_header(h0, data, Skipping::Reading);
    lemma_read_back(h0, data, 10);
    let magic = data.take(10);
    let r1 = data.skip(10);
    let h1 = h0.at(HeaderStage::KeyLength);
    lemma_read_back(h1, r1, 4);
    let key_len = le32_value(r1.take(4));
    let r2 = r1.skip(4);
    law_le32_value_round_trip(r1.take(4));
    let h2 = h0.at(HeaderStage::KeyBlob { len: key_len as u32 });
    lemma_read_back(h2, r2, key_len);
    let key_blob = r2.take(key_len);
    let r3 = r2.skip(key_len);
    let key_data = key_in_blob(key_blob)->Ok_0;
    let h3 = HeaderView { stage: HeaderStage::Key, key_data, ..h0 };
    lemma_accept_step(h3, r3, Skipping::Reading);
    assert(magic =~= MAGIC@ + magic.skip(8));
    lemma_split(data, 10);
    lemma_split(r1, 4);
    lemma_split(r2, key_len);
    (magic.skip(8), key_blob, r3)
}

/// Whatever decodes, read as a stream, is a well-formed container, and decodes to what its parts
/// hold.
pub proof fn law_decoded_container_is_well_formed(data: Seq<u8>) -> (l: Layout)
    requires
        contents_of(data, Skipping::Reading) is Ok,
    ensures
        l.well_formed(),
        l.bytes() == data,
        contents_of(data, Skipping::Reading) == Ok::<_, Fault>(l.contents()),
{
    let (gap, key_blob, r3) = lemma_key_part(data);
    let key_data = key_in_blob(key_blob)->Ok_0;
    let h4 = HeaderView { stage: HeaderStage::MetaLength, key_data, ..HeaderView::start() };
    let (meta_blob, r5) = lemma_meta_part(h4, r3);
    let json = json_in_blob(meta_blob)->Ok_0;
    let h7 = HeaderView { stage: HeaderStage::Crc, json, ..h4 };
    let (crc, image, padding, body) = lemma_cover_part(h7, r5);
    let l = Layout { gap, key_blob, meta_blob, crc, image, padding, body };
    law_well_formed_container_decodes(l, Skipping::Reading);
    l
}

/// Where the parts of a container stand: the magic, the two bytes after it, and each length in four
/// bytes, lowest first, before what it counts.
pub proof fn law_parts_stand_in_order(l: Layout)
    requires
        l.sized(),
    ensures
        ({
            let d = l.bytes();
            let k = l.key_blob.len() as int;
            let m = l.meta_blob.len() as int;
            let n = l.image.len() as int;
            let f = n + l.padding.len();
            &&& d.len() == 31 + k + m + f + l.body.len()
            &&& d.subrange(0, 8) == MAGIC@
            &&& d.subrange(8, 10) == l.gap
            &&& d[10] + 0x100 * d[11] + 0x1_0000 * d[12] + 0x100_0000 * d[13] == k
            &&& d.subrange(14, 14 + k) == l.key_blob
            &&& d[14 + k] + 0x100 * d[15 + k] + 0x1_0000 * d[16 + k] + 0x100_0000 * d[17 + k] == m
            &&& d.subrange(18 + k, 18 + k + m) == l.meta_blob
            &&& d.subrange(18 + k + m, 23 + k + m) == l.crc
            &&& d[23 + k + m] + 0x100 * d[24 + k + m] + 0x1_0000 * d[25 + k + m] + 0x100_0000 * d[26
                + k + m] == f
            &&& d[27 + k + m] + 0x100 * d[28 + k + m] + 0x1_0000 * d[29 + k + m] + 0x100_0000 * d[30
                + k + m] == n
            &&& d.subrange(31 + k + m, 31 + k + m + n) == l.image
            &&& d.subrange(31 + k + m + n, 31 + k + m + f) == l.padding
            &&& d.skip(31 + k + m + f) == l.body
        }),
{
    let d = l.bytes();
    let k = l.key_blob.len() as int;
    let m = l.meta_blob.len() as int;
    let n = l.image.len() as int;
    let f = n + l.padding.len();
    let (kl, ml, fl, nl) = (le32(k), le32(m), le32(f), le32(n));
    law_le32_round_trip(k);
    law_le32_round_trip(m);
    law_le32_round_trip(f);
    law_le32_round_trip(n);
    assert((l.image + l.padding).len() == f);
    let r9 = l.padding + l.body;
    let r8 = l.image + r9;
    let r7 = nl + r8;
    let r6 = fl + r7;
    let r5 = l.crc + r6;
    let r4 = l.meta_blob + r5;
    let r3 = ml + r4;
    let r2 = l.key_blob + r3;
    let r1 = kl + r2;
    assert(d == (MAGIC@ + l.gap) + r1);
    assert(d.subrange(0, 8) =~= MAGIC@);
    assert(d.subrange(8, 10) =~= l.gap);
    lemma_after(d, 0, MAGIC@ + l.gap, r1);
    lemma_after(d, 10, kl, r2);
    lemma_after(d, 14, l.key_blob, r3);
    lemma_after(d, 14 + k, ml, r4);
    lemma_after(d, 18 + k, l.meta_blob, r5);
    lemma_after(d, 18 + k + m, l.crc, r6);
    lemma_after(d, 23 + k + m, fl, r7);
    lemma_after(d, 27 + k + m, nl, r8);
    lemma_after(d, 31 + k + m, l.image, r9);
    lemma_after(d, 31 + k + m + n, l.padding, l.body);
    crate::octets::law_le32_value_weights(kl, kl);
    crate::octets::law_le32_value_weights(ml, ml);
    crate::octets::law_le32_value_weights(fl, fl);
    crate::octets::law_le32_value_weights(nl, nl);
}

proof fn lemma_after(d: Seq<u8>, at: int, part: Seq<u8>, rest: Seq<u8>)
    requires
        0 <= at <= d.len(),
        at == 0 ==> d == part + rest,
        at > 0 ==> d.skip(at) == part + rest,
    ensures
        at + part.len() + rest.len() == d.len(),
        d.subrange(at, at + part.len()) == part,
        d.skip(at + part.len()) == rest,
        forall|i: int| 0 <= i < part.len() ==> d[at + i] == #[trigger] part[i],
        part.len() == 4 ==> d[at] == part[0] && d[at + 1] == part[1] && d[at + 2] == part[2] && d[at
            + 3] == part[3],
{
    let tail = d.skip(at);
    assert(tail =~= part + rest);
    assert forall|i: int| 0 <= i < part.len() implies d[at + i] == #[trigger] part[i] by {
        assert(tail[i] == d[at + i]);
    }
    assert(d.subrange(at, at + part.len()) =~= part);
    assert forall|i: int| 0 <= i < rest.len() implies #[trigger] d.skip(at + part.len())[i]
        == rest[i] by {
        assert(tail[part.len() + i] == d[at + part.len() + i]);
    }
    assert(d.skip(at + part.len()) =~= rest);
}

/// What a well-formed container gives: the whole image as its cover, the key and the text of its
/// blobs, and audio as long as its body, each byte of which differs from that of the body by the
/// keystream byte of its place.
pub proof fn law_decoded_parts(l: Layout, skipping: Skipping, n: int)
    requires
        l.well_formed(),
    ensures
        contents_of(l.bytes(), skipping) matches Ok(c) && c.cover == l.image && key_in_blob(
            l.key_blob,
        ) == Ok::<_, Seq<char>>(c.key_data) && json_in_blob(l.meta_blob) == Ok::<_, Seq<char>>(
            c.json,
        ) && c.audio.len() == l.body.len() && (0 <= n < l.body.len() ==> {
            let s = crate::key::key_box(c.key_data);
            let i = (n + 1) % 256;
            l.body[n] ^ c.audio[n] == s[(s[i] + s[(s[i] + i) % 256]) % 256]
        }),
{
    law_well_formed_container_decodes(l, skipping);
    let key = KeyView::from_key_data(l.contents().key_data);
    crate::key::law_keystream_begins_at_the_start(l.contents().key_data);
    if 0 <= n < l.body.len() {
        crate::key::law_transform_is_the_keystream(key, l.body, n);
    }
}

/// Less than ten bytes are truncated, and ten or more that do not begin with the magic are refused
/// as no such file.
pub proof fn law_wrong_magic_is_refused(data: Seq<u8>, skipping: Skipping)
    requires
        data.len() < 10 || data.subrange(0, 8) != MAGIC@,
    ensures
        data.len() < 10 ==> contents_of(data, skipping) == Err::<Contents, _>(Fault::Truncated),
        data.len() >= 10 ==> contents_of(data, skipping) == Err::<Contents, _>(
            Fault::Invalid("Invalid file header"@),
        ),
{
    reveal(read_header);
    if data.len() >= 10 && MAGIC@.is_prefix_of(data.take(10)) {
        assert(MAGIC@ =~= data.take(10).subrange(0, 8));
        assert(data.take(10).subrange(0, 8) =~= data.subrange(0, 8));
    }
}

proof fn lemma_read_fails(at: HeaderView, chunk: Seq<u8>, rest: Seq<u8>, skipping: Skipping)
    requires
        at.stage.step() == HeaderStep::Read(chunk.len() as usize),
        chunk.len() <= usize::MAX,
    ensures
        !at.stage.image_fits() ==> read_header(at, chunk + rest, skipping) == Err::<
            (HeaderView, Seq<u8>),
            _,
        >(Fault::FrameOverrun),
        at.stage.image_fits() ==> (at.after_read(chunk) matches Err(message) ==> read_header(
            at,
            chunk + rest,
            skipping,
        ) == Err::<(HeaderView, Seq<u8>), _>(Fault::Invalid(message))),
{
    reveal(read_header);
    assert((chunk + rest).take(chunk.len() as int) =~= chunk);
}

proof fn lemma_to_key_blob(gap: Seq<u8>, len: int, rest: Seq<u8>, skipping: Skipping)
    requires
        gap.len() == 2,
        0 <= len < 0x1_0000_0000,
    ensures
        read_header(HeaderView::start(), (MAGIC@ + gap) + (le32(len) + rest), skipping)
            == read_header(
            HeaderView::start().at(HeaderStage::KeyBlob { len: len as u32 }),
            rest,
            skipping,
        ),
{
    law_le32_round_trip(len);
    let h0 = HeaderView::start();
    let h1 = h0.at(HeaderStage::KeyLength);
    let magic = MAGIC@ + gap;
    assert(MAGIC@ =~= magic.subrange(0, 8));
    lemma_read_step(h0, magic, le32(len) + rest, h1, skipping);
    let h2 = h0.at(HeaderStage::KeyBlob { len: len as u32 });
    lemma_read_step(h1, le32(len), rest, h2, skipping);
}

/// A container whose key blob is refused is refused for that, and one whose content key is empty
/// for having none, whatever follows.
pub proof fn law_bad_key_blob_is_refused(
    gap: Seq<u8>,
    key_blob: Seq<u8>,
    rest: Seq<u8>,
    skipping: Skipping,
)
    requires
        gap.len() == 2,
        key_blob.len() < 0x1_0000_0000,
    ensures
        ({
            let data = (MAGIC@ + gap) + (le32(key_blob.len() as int) + (key_blob + rest));
            match key_in_blob(key_blob) {
                Err(message) => contents_of(data, skipping) == Err::<Contents, _>(
                    Fault::Invalid(message),
                ),
                Ok(key_data) => key_data.len() == 0 ==> contents_of(data, skipping) == Err::<
                    Contents,
                    _,
                >(Fault::EmptyKey),
            }
        }),
{
    lemma_to_key_blob(gap, key_blob.len() as int, key_blob + rest, skipping);
    let h2 = HeaderView::start().at(HeaderStage::KeyBlob { len: key_blob.len() as u32 });
    lemma_read_fails(h2, key_blob, rest, skipping);
    if let Ok(key_data) = key_in_blob(key_blob) {
        let h3 = HeaderView { stage: HeaderStage::Key, key_data, ..h2 };
        lemma_read_step(h2, key_blob, rest, h3, skipping);
        reveal(read_header);
    }
}

proof fn lemma_to_meta_blob(
    gap: Seq<u8>,
    key_blob: Seq<u8>,
    len: int,
    rest: Seq<u8>,
    skipping: Skipping,
) -> (h: HeaderView)
    requires
        gap.len() == 2,
        key_blob.len() < 0x1_0000_0000,
        key_in_blob(key_blob) matches Ok(key_data) && key_data.len() > 0,
        0 <= len < 0x1_0000_0000,
    ensures
        h == (HeaderView {
            stage: HeaderStage::MetaBlob { len: len as u32 },
            key_data: key_in_blob(key_blob)->Ok_0,
            ..HeaderView::start()
        }),
        read_header(
            HeaderView::start(),
            (MAGIC@ + gap) + (le32(key_blob.len() as int) + (key_blob + (le32(len) + rest))),
            skipping,
        ) == read_header(h, rest, skipping),
{
    law_le32_round_trip(len);
    lemma_to_key_blob(gap, key_blob.len() as int, key_blob + (le32(len) + rest), skipping);
    let key_data = key_in_blob(key_blob)->Ok_0;
    let h2 = HeaderView::start().at(HeaderStage::KeyBlob { len: key_blob.len() as u32 });
    let h3 = HeaderView { stage: HeaderStage::Key, key_data, ..h2 };
    lemma_read_step(h2, key_blob, le32(len) + rest, h3, skipping);
    lemma_accept_step(h3, le32(len) + rest, skipping);
    let h5 = h3.at(HeaderStage::MetaBlob { len: len as u32 });
    lemma_read_step(h3.at(HeaderStage::MetaLength), le32(len), rest, h5, skipping);
    h5
}

/// A container whose metadata blob is refused is refused for that, whatever follows.
pub proof fn law_bad_meta_blob_is_refused(
    gap: Seq<u8>,
    key_blob: Seq<u8>,
    meta_blob: Seq<u8>,
    rest: Seq<u8>,
    skipping: Skipping,
)
    requires
        gap.len() == 2,
        key_blob.len() < 0x1_0000_0000,
        meta_blob.len() < 0x1_0000_0000,
        key_in_blob(key_blob) matches Ok(key_data) && key_data.len() > 0,
        json_in_blob(meta_blob) is Err,
    ensures
        contents_of(
            (MAGIC@ + gap) + (le32(key_blob.len() as int) + (key_blob + (le32(
                meta_blob.len() as int,
            ) + (meta_blob + rest)))),
            skipping,
        ) == Err::<Contents, _>(Fault::Invalid(json_in_blob(meta_blob)->Err_0)),
{
    let h5 = lemma_to_meta_blob(
        gap,
        key_blob,
        meta_blob.len() as int,
        meta_blob + rest,
        skipping,
    );
    lemma_read_fails(h5, meta_blob, rest, skipping);
}

proof fn lemma_to_image(
    l: Layout,
    frame_len: int,
    image_len: int,
    rest: Seq<u8>,
    skipping: Skipping,
) -> (h: HeaderView)
    requires
        l.well_formed(),
        0 <= frame_len < 0x1_0000_0000,
        0 <= image_len < 0x1_0000_0000,
    ensures
        h == (HeaderView {
            stage: HeaderStage::Image { frame_len: frame_len as u32, image_len: image_len as u32 },
            key_data: key_in_blob(l.key_blob)->Ok_0,
            json: json_in_blob(l.meta_blob)->Ok_0,
            cover: Seq::empty(),
        }),
        read_header(
            HeaderView::start(),
            (MAGIC@ + l.gap) + (le32(l.key_blob.len() as int) + (l.key_blob + (le32(
                l.meta_blob.len() as int,
            ) + (l.meta_blob + (l.crc + (le32(frame_len) + (le32(image_len) + rest))))))),
            skipping,
        ) == read_header(h, rest, skipping),
{
    law_le32_round_trip(frame_len);
    law_le32_round_trip(image_len);
    let r7 = le32(image_len) + rest;
    let r6 = le32(frame_len) + r7;
    let r5 = l.crc + r6;
    let h5 = lemma_to_meta_blob(
        l.gap,
        l.key_blob,
        l.meta_blob.len() as int,
        l.meta_blob + r5,
        skipping,
    );
    let json = json_in_blob(l.meta_blob)->Ok_0;
    let h6 = HeaderView { stage: HeaderStage::Metadata, json, ..h5 };
    lemma_read_step(h5, l.meta_blob, r5, h6, skipping);
    lemma_accept_step(h6, r5, skipping);
    lemma_skip_step(h6.at(HeaderStage::Crc), l.crc, r6, skipping);
    let h9 = h6.at(HeaderStage::ImageLength { frame_len: frame_len as u32 });
    lemma_read_step(h6.at(HeaderStage::FrameLength), le32(frame_len), r7, h9, skipping);
    let h10 = h6.at(
        HeaderStage::Image { frame_len: frame_len as u32, image_len: image_len as u32 },
    );
    lemma_read_step(h9, le32(image_len), rest, h10, skipping);
    h10
}

/// A container that is well-formed but for a frame length below that of its image is refused for
/// that.
pub proof fn law_overlong_image_is_refused(
    l: Layout,
    frame_len: int,
    image: Seq<u8>,
    rest: Seq<u8>,
    skipping: Skipping,
)
    requires
        l.well_formed(),
        0 <= frame_len < image.len() < 0x1_0000_0000,
    ensures
        contents_of(
            (MAGIC@ + l.gap) + (le32(l.key_blob.len() as int) + (l.key_blob + (le32(
                l.meta_blob.len() as int,
            ) + (l.meta_blob + (l.crc + (le32(frame_len) + (le32(image.len() as int) + (image
                + rest)))))))),
            skipping,
        ) == Err::<Contents, _>(Fault::FrameOverrun),
{
    let h10 = lemma_to_image(l, frame_len, image.len() as int, image + rest, skipping);
    lemma_read_fails(h10, image, rest, skipping);
}

proof fn lemma_cut_read(
    at: HeaderView,
    chunk: Seq<u8>,
    rest: Seq<u8>,
    next: HeaderView,
    n: int,
    skipping: Skipping,
)
    requires
        at.stage.step() == HeaderStep::Read(chunk.len() as usize),
        chunk.len() <= usize::MAX,
        at.stage.image_fits(),
        at.after_read(chunk) == Ok::<_, Seq<char>>(next),
        n <= chunk.len() + rest.len(),
    ensures
        0 <= n < chunk.len() ==> read_header(at, (chunk + rest).take(n), skipping) == Err::<
            (HeaderView, Seq<u8>),
            _,
        >(Fault::Truncated),
        n >= chunk.len() ==> read_header(at, (chunk + rest).take(n), skipping) == read_header(
            next,
            rest.take(n - chunk.len()),
            skipping,
        ),
{
    if n >= chunk.len() {
        assert((chunk + rest).take(n) =~= chunk + rest.take(n - chunk.len()));
        lemma_read_step(at, chunk, rest.take(n - chunk.len()), next, skipping);
    } else if n >= 0 {
        reveal(read_header);
    }
}

/// A well-formed container that is cut off before the end of its image is truncated. One that is
/// cut off later, in the padding, is truncated in a stream, and in a file decodes to all it holds
/// but with no audio.
pub proof fn law_cut_container(l: Layout, n: int, skipping: Skipping)
    requires
        l.well_formed(),
        0 <= n < l.bytes().len() - l.body.len(),
    ensures
        ({
            let cut = contents_of(l.bytes().take(n), skipping);
            let in_padding = l.bytes().len() - l.body.len() - l.padding.len() <= n;
            if in_padding && skipping is Seeking {
                cut == Ok::<_, Fault>((Contents { audio: Seq::empty(), ..l.contents() }))
            } else {
                cut == Err::<Contents, _>(Fault::Truncated)
            }
        }),
{
    let k = l.key_blob.len() as int;
    let m = l.meta_blob.len() as int;
    let image_len = l.image.len() as int;
    let frame_len = (l.image + l.padding).len() as int;
    law_le32_round_trip(k);
    law_le32_round_trip(m);
    law_le32_round_trip(frame_len);
    law_le32_round_trip(image_len);
    let c = l.contents();
    let r9 = l.padding + l.body;
    let r8 = l.image + r9;
    let r7 = le32(image_len) + r8;
    let r6 = le32(frame_len) + r7;
    let r5 = l.crc + r6;
    let r4 = l.meta_blob + r5;
    let r3 = le32(m) + r4;
    let r2 = l.key_blob + r3;
    let r1 = le32(k) + r2;

    let h0 = HeaderView::start();
    let h1 = h0.at(HeaderStage::KeyLength);
    let magic = MAGIC@ + l.gap;
    assert(MAGIC@ =~= magic.subrange(0, 8));
    lemma_cut_read(h0, magic, r1, h1, n, skipping);
    let n1 = n - 10;
    let h2 = h0.at(HeaderStage::KeyBlob { len: k as u32 });
    lemma_cut_read(h1, le32(k), r2, h2, n1, skipping);
    let n2 = n1 - 4;
    let h3 = HeaderView { stage: HeaderStage::Key, key_data: c.key_data, ..h0 };
    lemma_cut_read(h2, l.key_blob, r3, h3, n2, skipping);
    let n3 = n2 - k;
    lemma_accept_step(h3, r3.take(n3), skipping);
    let h5 = h3.at(HeaderStage::MetaBlob { len: m as u32 });
    lemma_cut_read(h3.at(HeaderStage::MetaLength), le32(m), r4, h5, n3, skipping);
    let n4 = n3 - 4;
    let h6 = HeaderView { stage: HeaderStage::Metadata, json: c.json, ..h3 };
    lemma_cut_read(h5, l.meta_blob, r5, h6, n4, skipping);
    let n5 = n4 - m;
    lemma_accept_step(h6, r5.take(n5), skipping);
    let h7 = h6.at(HeaderStage::Crc);
    let h8 = h6.at(HeaderStage::FrameLength);
    lemma_cut_skip(h7, l.crc, r6, n5, skipping);
    lemma_nothing_to_read(h8, skipping);
    let n6 = n5 - 5;
    let h9 = h6.at(HeaderStage::ImageLength { frame_len: frame_len as u32 });
    lemma_cut_read(h8, le32(frame_len), r7, h9, n6, skipping);
    let n7 = n6 - 4;
    let h10 = h6.at(
        HeaderStage::Image { frame_len: frame_len as u32, image_len: image_len as u32 },
    );
    lemma_cut_read(h9, le32(image_len), r8, h10, n7, skipping);
    let n8 = n7 - 4;
    let h11 = HeaderView {
        stage: HeaderStage::Padding { len: l.padding.len() as u32 },
        cover: l.image,
        ..h6
    };
    lemma_cut_read(h10, l.image, r9, h11, n8, skipping);
    let n9 = n8 - image_len;
    lemma_cut_skip(h11, l.padding, l.body, n9, skipping);
    lemma_accept_step(h11.at(HeaderStage::Done), Seq::empty(), skipping);
    assert(KeyView::from_key_data(c.key_data).transform(Seq::empty()) =~= Seq::<u8>::empty());
}

proof fn lemma_nothing_to_read(at: HeaderView, skipping: Skipping)
    requires
        at.stage is FrameLength,
    ensures
        read_header(at, Seq::empty(), skipping) == Err::<(HeaderView, Seq<u8>), _>(
            Fault::Truncated,
        ),
{
    reveal(read_header);
}

proof fn lemma_cut_skip(
    at: HeaderView,
    chunk: Seq<u8>,
    rest: Seq<u8>,
    n: int,
    skipping: Skipping,
)
    requires
        at.stage.step() == HeaderStep::Skip(chunk.len() as usize),
        chunk.len() <= usize::MAX,
        n <= chunk.len() + rest.len(),
    ensures
        0 <= n < chunk.len() && skipping is Reading ==> read_header(
            at,
            (chunk + rest).take(n),
            skipping,
        ) == Err::<(HeaderView, Seq<u8>), _>(Fault::Truncated),
        0 <= n < chunk.len() && skipping is Seeking ==> read_header(
            at,
            (chunk + rest).take(n),
            skipping,
        ) == read_header(at.after_pass(), Seq::empty(), skipping),
        n >= chunk.len() ==> read_header(at, (chunk + rest).take(n), skipping) == read_header(
            at.after_pass(),
            rest.take(n - chunk.len()),
            skipping,
        ),
{
    if n >= chunk.len() {
        assert((chunk + rest).take(n) =~= chunk + rest.take(n - chunk.len()));
        lemma_skip_step(at, chunk, rest.take(n - chunk.len()), skipping);
    } else if n >= 0 {
        reveal(read_header);
    }
}

/// A container is well-formed exactly if its fixed parts have their lengths, the lengths of the
/// others can be written in four bytes, its key blob holds a key of at least one byte, and its
/// metadata blob holds a text. Nothing else is asked of it.
pub proof fn law_what_is_well_formed(l: Layout)
    ensures
        l.well_formed() <==> (l.gap.len() == 2 && l.crc.len() == 5 && l.key_blob.len()
            < 0x1_0000_0000 && l.meta_blob.len() < 0x1_0000_0000 && l.image.len() + l.padding.len()
            < 0x1_0000_0000 && key_in_blob(l.key_blob) is Ok && key_in_blob(l.key_blob)->Ok_0.len()
            > 0 && json_in_blob(l.meta_blob) is Ok),
{
}

} // verus!
