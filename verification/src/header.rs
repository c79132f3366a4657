//! The header of a `.ncm` container: what is read, in which order, and what it means.
//!
//! [`HeaderParser`] decides; it reads nothing itself. Its caller asks for the next
//! [`HeaderStep`], takes it on whatever the bytes come from, and reports back.
use crate::blob::{decrypt_key_blob, decrypt_meta_blob};
use crate::error::{invalid, NcmError};
use crate::key::Key;
use crate::meta::Meta;
use crate::octets::{read_le32, starts_with};
use vstd::prelude::*;

verus! {

/// What every container begins with: `CTENFDAM`.
pub const MAGIC: [u8; 8] = [0x43, 0x54, 0x45, 0x4e, 0x46, 0x44, 0x41, 0x4d];

/// How far the header has been read.
#[derive(Debug, Clone, Copy)]
pub enum HeaderStage {
    /// At the magic, and the two bytes after it.
    Magic,
    /// At the length of the key blob.
    KeyLength,
    /// At the key blob.
    KeyBlob { len: u32 },
    /// The content key is known and has not been accepted yet.
    Key,
    /// At the length of the metadata blob.
    MetaLength,
    /// At the metadata blob.
    MetaBlob { len: u32 },
    /// The JSON text is known and has not been accepted yet.
    Metadata,
    /// At the five reserved bytes after the metadata.
    Crc,
    /// At the length of the cover frame.
    FrameLength,
    /// At the length of the image in the cover frame.
    ImageLength { frame_len: u32 },
    /// At the image.
    Image { frame_len: u32, image_len: u32 },
    /// At what the cover frame holds beyond the image.
    Padding { len: u32 },
    /// At the audio body.
    Done,
}

/// What the caller of a [`HeaderParser`] has to do next.
#[derive(Debug, Clone, Copy)]
pub enum HeaderStep {
    /// Read exactly this many bytes and hand them to [`HeaderParser::feed`].
    Read(usize),
    /// Look at the content key and call [`HeaderParser::accept_key`].
    AcceptKey,
    /// Parse the JSON text and call [`HeaderParser::accept_metadata`].
    AcceptMetadata,
    /// Pass over this many bytes and call [`HeaderParser::skipped`].
    Skip(usize),
    /// The audio body follows.
    Done,
}

impl HeaderStage {
    /// The number of stages still ahead.
    pub open spec fn rank(self) -> nat {
        match self {
            HeaderStage::Magic => 12,
            HeaderStage::KeyLength => 11,
            HeaderStage::KeyBlob { .. } => 10,
            HeaderStage::Key => 9,
            HeaderStage::MetaLength => 8,
            HeaderStage::MetaBlob { .. } => 7,
            HeaderStage::Metadata => 6,
            HeaderStage::Crc => 5,
            HeaderStage::FrameLength => 4,
            HeaderStage::ImageLength { .. } => 3,
            HeaderStage::Image { .. } => 2,
            HeaderStage::Padding { .. } => 1,
            HeaderStage::Done => 0,
        }
    }

    /// What is to be done at this stage.
    pub open spec fn step(self) -> HeaderStep {
        match self {
            HeaderStage::Magic => HeaderStep::Read(10),
            HeaderStage::KeyLength => HeaderStep::Read(4),
            HeaderStage::KeyBlob { len } => HeaderStep::Read(len as usize),
            HeaderStage::Key => HeaderStep::AcceptKey,
            HeaderStage::MetaLength => HeaderStep::Read(4),
            HeaderStage::MetaBlob { len } => HeaderStep::Read(len as usize),
            HeaderStage::Metadata => HeaderStep::AcceptMetadata,
            HeaderStage::Crc => HeaderStep::Skip(5),
            HeaderStage::FrameLength => HeaderStep::Read(4),
            HeaderStage::ImageLength { .. } => HeaderStep::Read(4),
            HeaderStage::Image { image_len, .. } => HeaderStep::Read(image_len as usize),
            HeaderStage::Padding { len } => HeaderStep::Skip(len as usize),
            HeaderStage::Done => HeaderStep::Done,
        }
    }

    /// At an image, the cover frame is long enough to hold it.
    pub open spec fn image_fits(self) -> bool {
        match self {
            HeaderStage::Image { frame_len, image_len } => image_len <= frame_len,
            _ => true,
        }
    }
}

/// What has been read of a header.
pub struct HeaderView {
    pub stage: HeaderStage,
    /// The content key, once its blob has been read.
    pub key_data: Seq<u8>,
    /// The JSON text of the metadata, once its blob has been read.
    pub json: Seq<u8>,
    /// The cover image, once it has been read.
    pub cover: Seq<u8>,
}

impl HeaderView {
    /// Nothing has been read.
    pub open spec fn start() -> HeaderView {
        HeaderView {
            stage: HeaderStage::Magic,
            key_data: Seq::empty(),
            json: Seq::empty(),
            cover: Seq::empty(),
        }
    }

    /// The same reading at another stage.
    pub open spec fn at(self, stage: HeaderStage) -> HeaderView {
        HeaderView { stage, ..self }
    }

    /// The state after the bytes that the current stage reads, or what is wrong with them.
    pub open spec fn after_read(self, data: Seq<u8>) -> Result<HeaderView, Seq<char>> {
        match self.stage {
            HeaderStage::Magic => if MAGIC@.is_prefix_of(data) {
                Ok(self.at(HeaderStage::KeyLength))
            } else {
                Err("Invalid file header"@)
            },
            HeaderStage::KeyLength => {
                Ok(self.at(HeaderStage::KeyBlob { len: crate::octets::le32_value(data) as u32 }))
            },
            HeaderStage::KeyBlob { .. } => match crate::blob::key_in_blob(data) {
                Ok(key_data) => Ok(HeaderView { stage: HeaderStage::Key, key_data, ..self }),
                Err(message) => Err(message),
            },
            HeaderStage::MetaLength => {
                Ok(self.at(HeaderStage::MetaBlob { len: crate::octets::le32_value(data) as u32 }))
            },
            HeaderStage::MetaBlob { .. } => match crate::blob::json_in_blob(data) {
                Ok(json) => Ok(HeaderView { stage: HeaderStage::Metadata, json, ..self }),
                Err(message) => Err(message),
            },
            HeaderStage::FrameLength => Ok(
                self.at(
                    HeaderStage::ImageLength { frame_len: crate::octets::le32_value(data) as u32 },
                ),
            ),
            HeaderStage::ImageLength { frame_len } => Ok(
                self.at(
                    HeaderStage::Image {
                        frame_len,
                        image_len: crate::octets::le32_value(data) as u32,
                    },
                ),
            ),
            HeaderStage::Image { frame_len, image_len } => Ok(
                HeaderView {
                    stage: HeaderStage::Padding { len: (frame_len - image_len) as u32 },
                    cover: data,
                    ..self
                },
            ),
            _ => Ok(self),
        }
    }

    /// The state after a step that reads nothing.
    pub open spec fn after_pass(self) -> HeaderView {
        match self.stage {
            HeaderStage::Key => self.at(HeaderStage::MetaLength),
            HeaderStage::Metadata => self.at(HeaderStage::Crc),
            HeaderStage::Crc => self.at(HeaderStage::FrameLength),
            HeaderStage::Padding { .. } => self.at(HeaderStage::Done),
            _ => self,
        }
    }
}

/// Reads the header of a `.ncm` container step by step.
#[derive(Debug)]
pub struct HeaderParser {
    stage: HeaderStage,
    key_data: Vec<u8>,
    json: Vec<u8>,
    cover: Vec<u8>,
}

impl View for HeaderParser {
    type V = HeaderView;

    closed spec fn view(&self) -> HeaderView {
        HeaderView {
            stage: self.stage,
            key_data: self.key_data@,
            json: self.json@,
            cover: self.cover@,
        }
    }
}

impl HeaderParser {
    /// Once the content key has been accepted, it is not empty.
    #[verifier::type_invariant]
    spec fn has_accepted_key(self) -> bool {
        self.stage.rank() < 9 ==> self.key_data@.len() > 0
    }

    /// A parser at the start of a container.
    pub fn new() -> (parser: Self)
        ensures
            parser@ == HeaderView::start(),
    {
        HeaderParser {
            stage: HeaderStage::Magic,
            key_data: Vec::new(),
            json: Vec::new(),
            cover: Vec::new(),
        }
    }

    /// What is to be done next.
    pub fn step(&self) -> (step: HeaderStep)
        ensures
            step == self@.stage.step(),
    {
        match self.stage {
            HeaderStage::Magic => HeaderStep::Read(10),
            HeaderStage::KeyLength => HeaderStep::Read(4),
            HeaderStage::KeyBlob { len } => HeaderStep::Read(len as usize),
            HeaderStage::Key => HeaderStep::AcceptKey,
            HeaderStage::MetaLength => HeaderStep::Read(4),
            HeaderStage::MetaBlob { len } => HeaderStep::Read(len as usize),
            HeaderStage::Metadata => HeaderStep::AcceptMetadata,
            HeaderStage::Crc => HeaderStep::Skip(5),
            HeaderStage::FrameLength => HeaderStep::Read(4),
            HeaderStage::ImageLength { .. } => HeaderStep::Read(4),
            HeaderStage::Image { image_len, .. } => HeaderStep::Read(image_len as usize),
            HeaderStage::Padding { len } => HeaderStep::Skip(len as usize),
            HeaderStage::Done => HeaderStep::Done,
        }
    }

    /// Whether the cover frame is long enough for the image that comes next; true at any other
    /// stage.
    pub fn image_fits(&self) -> (fits: bool)
        ensures
            fits == self@.stage.image_fits(),
    {
        match self.stage {
            HeaderStage::Image { frame_len, image_len } => image_len <= frame_len,
            _ => true,
        }
    }

    /// The content key, once its blob has been read.
    pub fn key_data(&self) -> (key_data: &Vec<u8>)
        ensures
            key_data@ == self@.key_data,
    {
        &self.key_data
    }

    /// The JSON text of the metadata, once its blob has been read.
    pub fn json(&self) -> (json: &Vec<u8>)
        ensures
            json@ == self@.json,
    {
        &self.json
    }

    /// Takes the bytes that [`HeaderStep::Read`] asked for. On an error nothing changes.
    ///
    /// An image that is longer than its frame is no header; see [`HeaderParser::image_fits`].
    pub fn feed(&mut self, data: &[u8]) -> (fed: Result<(), NcmError>)
        requires
            old(self)@.stage.step() == HeaderStep::Read(data.len()),
            old(self)@.stage.image_fits(),
        ensures
            match fed {
                Ok(()) => old(self)@.after_read(data@) == Ok::<_, Seq<char>>(final(self)@),
                Err(error) => {
                    &&& old(self)@.after_read(data@) == Err::<HeaderView, _>(error@)
                    &&& final(self)@ == old(self)@
                },
            },
    {
        proof {
            use_type_invariant(&*self);
        }
        match self.stage {
            HeaderStage::Magic => {
                if !starts_with(data, &MAGIC) {
                    return Err(invalid("Invalid file header"));
                }
                self.stage = HeaderStage::KeyLength;
            },
            HeaderStage::KeyLength => {
                self.stage = HeaderStage::KeyBlob { len: read_le32(data) };
            },
            HeaderStage::KeyBlob { .. } => {
                match decrypt_key_blob(data) {
                    Ok(key_data) => {
                        self.key_data = key_data;
                        self.stage = HeaderStage::Key;
                    },
                    Err(error) => return Err(error),
                }
            },
            HeaderStage::MetaLength => {
                self.stage = HeaderStage::MetaBlob { len: read_le32(data) };
            },
            HeaderStage::MetaBlob { .. } => {
                match decrypt_meta_blob(data) {
                    Ok(json) => {
                        self.json = json;
                        self.stage = HeaderStage::Metadata;
                    },
                    Err(error) => return Err(error),
                }
            },
            HeaderStage::FrameLength => {
                self.stage = HeaderStage::ImageLength { frame_len: read_le32(data) };
            },
            HeaderStage::ImageLength { frame_len } => {
                self.stage = HeaderStage::Image { frame_len, image_len: read_le32(data) };
            },
            HeaderStage::Image { frame_len, image_len } => {
                self.cover = vstd::slice::slice_to_vec(data);
                self.stage = HeaderStage::Padding { len: frame_len - image_len };
            },
            _ => {},
        }
        Ok(())
    }

    /// Goes on after the content key. An empty key gives no keystream.
    pub fn accept_key(&mut self)
        requires
            old(self)@.stage is Key,
            old(self)@.key_data.len() > 0,
        ensures
            final(self)@ == old(self)@.after_pass(),
    {
        self.stage = HeaderStage::MetaLength;
    }

    /// Goes on after the metadata.
    pub fn accept_metadata(&mut self)
        requires
            old(self)@.stage is Metadata,
        ensures
            final(self)@ == old(self)@.after_pass(),
    {
        proof {
            use_type_invariant(&*self);
        }
        self.stage = HeaderStage::Crc;
    }

    /// Goes on after the bytes that [`HeaderStep::Skip`] asked to pass over.
    pub fn skipped(&mut self)
        requires
            old(self)@.stage.step() is Skip,
        ensures
            final(self)@ == old(self)@.after_pass(),
    {
        proof {
            use_type_invariant(&*self);
        }
        match self.stage {
            HeaderStage::Crc => {
                self.stage = HeaderStage::FrameLength;
            },
            _ => {
                self.stage = HeaderStage::Done;
            },
        }
    }

    /// The content key, the JSON text and the cover image that the header holds.
    pub fn into_contents(self) -> (contents: (Vec<u8>, Vec<u8>, Vec<u8>))
        requires
            self@.stage is Done,
        ensures
            contents.0@ == self@.key_data,
            contents.0@.len() > 0,
            contents.1@ == self@.json,
            contents.2@ == self@.cover,
    {
        proof {
            use_type_invariant(&self);
        }
        (self.key_data, self.json, self.cover)
    }

    /// The keystream of the audio body, and `meta` with the cover image that the header holds.
    pub fn into_parts(self, meta: Meta) -> (parts: (Key, Meta))
        requires
            self@.stage is Done,
        ensures
            parts.0@ == crate::key::KeyView::from_key_data(self@.key_data),
            parts.1.is_with_cover(meta, self@.cover),
    {
        proof {
            use_type_invariant(&self);
        }
        let mut meta = meta;
        let key = Key::from_key_data(self.key_data.as_slice());
        meta.set_cover(self.cover);
        (key, meta)
    }
}

} // verus!
