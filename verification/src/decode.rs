//! Decoding a whole `.ncm` container that is held in memory.
use crate::error::NcmError;
use crate::header::{HeaderParser, HeaderStage, HeaderStep};
use crate::key::Key;
use vstd::prelude::*;

verus! {

use crate::header::HeaderView;
use crate::key::KeyView;

/// Why a sequence of bytes cannot be decoded.
#[derive(Debug)]
pub enum OpenError {
    /// The bytes end inside the header.
    Truncated,
    /// The header is malformed.
    Invalid(NcmError),
    /// The content key is empty, so there is no keystream.
    EmptyKey,
    /// The cover image is longer than the frame that holds it.
    FrameOverrun,
}

/// An [`OpenError`] by what it stands for.
pub enum Fault {
    Truncated,
    Invalid(Seq<char>),
    EmptyKey,
    FrameOverrun,
}

impl View for OpenError {
    type V = Fault;

    open spec fn view(&self) -> Fault {
        match self {
            OpenError::Truncated => Fault::Truncated,
            OpenError::Invalid(error) => Fault::Invalid(error@),
            OpenError::EmptyKey => Fault::EmptyKey,
            OpenError::FrameOverrun => Fault::FrameOverrun,
        }
    }
}

/// How the bytes are passed over that a header does not use.
#[derive(Debug, Clone, Copy)]
pub enum Skipping {
    /// By reading them, as from a stream: they have to be there.
    Reading,
    /// By moving the position, as in a file: it may move beyond the end, where nothing is left to
    /// read.
    Seeking,
}

/// Reading on in a header from state `at`, the unread bytes being `rest`: what has been read when
/// the audio body is reached, and the body; or the first thing that goes wrong.
#[verifier::opaque]
pub open spec fn read_header(at: HeaderView, rest: Seq<u8>, skipping: Skipping) -> Result<
    (HeaderView, Seq<u8>),
    Fault,
>
    decreases at.stage.rank(),
{
    match at.stage.step() {
        HeaderStep::Done => Ok((at, rest)),
        HeaderStep::AcceptKey => if at.key_data.len() == 0 {
            Err(Fault::EmptyKey)
        } else {
            read_header(at.after_pass(), rest, skipping)
        },
        HeaderStep::AcceptMetadata => read_header(at.after_pass(), rest, skipping),
        HeaderStep::Skip(n) => if n <= rest.len() {
            read_header(at.after_pass(), rest.skip(n as int), skipping)
        } else {
            match skipping {
                Skipping::Reading => Err(Fault::Truncated),
                Skipping::Seeking => read_header(at.after_pass(), Seq::empty(), skipping),
            }
        },
        HeaderStep::Read(n) => if rest.len() < n {
            Err(Fault::Truncated)
        } else if !at.stage.image_fits() {
            Err(Fault::FrameOverrun)
        } else {
            match at.after_read(rest.take(n as int)) {
                Err(message) => Err(Fault::Invalid(message)),
                Ok(next) => read_header(next, rest.skip(n as int), skipping),
            }
        },
    }
}

proof fn lemma_next_step(at: HeaderView, rest: Seq<u8>, skipping: Skipping)
    ensures
        read_header(at, rest, skipping) == (match at.stage.step() {
        HeaderStep::Done => Ok((at, rest)),
        HeaderStep::AcceptKey => if at.key_data.len() == 0 {
            Err(Fault::EmptyKey)
        } else {
            read_header(at.after_pass(), rest, skipping)
        },
        HeaderStep::AcceptMetadata => read_header(at.after_pass(), rest, skipping),
        HeaderStep::Skip(n) => if n <= rest.len() {
            read_header(at.after_pass(), rest.skip(n as int), skipping)
        } else {
            match skipping {
                Skipping::Reading => Err(Fault::Truncated),
                Skipping::Seeking => read_header(at.after_pass(), Seq::empty(), skipping),
            }
        },
        HeaderStep::Read(n) => if rest.len() < n {
            Err(Fault::Truncated)
        } else if !at.stage.image_fits() {
            Err(Fault::FrameOverrun)
        } else {
            match at.after_read(rest.take(n as int)) {
                Err(message) => Err(Fault::Invalid(message)),
                Ok(next) => read_header(next, rest.skip(n as int), skipping),
            }
        },
    }),
{
    reveal(read_header);
}

/// What a container holds.
pub struct Contents {
    pub key_data: Seq<u8>,
    pub json: Seq<u8>,
    pub cover: Seq<u8>,
    pub audio: Seq<u8>,
}

/// What the container `data` holds, or why it cannot be decoded.
pub open spec fn contents_of(data: Seq<u8>, skipping: Skipping) -> Result<Contents, Fault> {
    match read_header(HeaderView::start(), data, skipping) {
        Err(fault) => Err(fault),
        Ok((header, body)) => Ok(
            Contents {
                key_data: header.key_data,
                json: header.json,
                cover: header.cover,
                audio: KeyView::from_key_data(header.key_data).transform(body),
            },
        ),
    }
}

/// A decoded container.
#[derive(Debug)]
pub struct DecodedNcm {
    /// The raw content key.
    pub key_data: Vec<u8>,
    /// The JSON text of the metadata.
    pub json: Vec<u8>,
    /// The cover image.
    pub cover: Vec<u8>,
    /// The decrypted audio.
    pub audio: Vec<u8>,
}

impl View for DecodedNcm {
    type V = Contents;

    open spec fn view(&self) -> Contents {
        Contents {
            key_data: self.key_data@,
            json: self.json@,
            cover: self.cover@,
            audio: self.audio@,
        }
    }
}

/// Decodes a container.
pub fn decode_ncm(data: &[u8], skipping: Skipping) -> (decoded: Result<DecodedNcm, OpenError>)
    ensures
        match decoded {
            Ok(decoded) => contents_of(data@, skipping) == Ok::<_, Fault>(decoded@),
            Err(error) => contents_of(data@, skipping) == Err::<Contents, _>(error@),
        },
        decoded matches Ok(d) ==> contents_of(data@, skipping) == Ok::<_, Fault>(
            (Contents {
                key_data: d.key_data@,
                json: d.json@,
                cover: d.cover@,
                audio: d.audio@,
            }),
        ),
        decoded matches Err(error) ==> contents_of(data@, skipping) == Err::<Contents, _>(
            match error {
                OpenError::Truncated => Fault::Truncated,
                OpenError::Invalid(NcmError::Invalid(message)) => Fault::Invalid(message@),
                OpenError::EmptyKey => Fault::EmptyKey,
                OpenError::FrameOverrun => Fault::FrameOverrun,
            },
        ),
{
    let mut parser = HeaderParser::new();
    let mut pos: usize = 0;
    assert(data@.skip(0) =~= data@);
    loop
        invariant
            pos <= data@.len(),
            read_header(parser@, data@.skip(pos as int), skipping) == read_header(
                HeaderView::start(),
                data@,
                skipping,
            ),
        ensures
            pos <= data@.len(),
            read_header(HeaderView::start(), data@, skipping) == Ok::<_, Fault>(
                (parser@, data@.skip(pos as int)),
            ),
            parser@.stage is Done,
        decreases parser@.stage.rank(),
    {
        let ghost rest = data@.skip(pos as int);
        proof {
            lemma_next_step(parser@, rest, skipping);
        }
        match parser.step() {
            HeaderStep::Done => break,
            HeaderStep::AcceptKey => {
                if parser.key_data().len() == 0 {
                    return Err(OpenError::EmptyKey);
                }
                parser.accept_key();
            },
            HeaderStep::AcceptMetadata => parser.accept_metadata(),
            HeaderStep::Skip(n) => {
                if n <= data.len() - pos {
                    pos = pos + n;
                    assert(rest.skip(n as int) =~= data@.skip(pos as int));
                } else {
                    match skipping {
                        Skipping::Reading => return Err(OpenError::Truncated),
                        Skipping::Seeking => {},
                    }
                    pos = data.len();
                    assert(data@.skip(pos as int) =~= Seq::<u8>::empty());
                }
                parser.skipped();
            },
            HeaderStep::Read(n) => {
                if data.len() - pos < n {
                    return Err(OpenError::Truncated);
                }
                if !parser.image_fits() {
                    return Err(OpenError::FrameOverrun);
                }
                let chunk: &[u8] = &data[pos..pos + n];
                assert(chunk@ =~= rest.take(n as int));
                match parser.feed(chunk) {
                    Ok(()) => {},
                    Err(error) => return Err(OpenError::Invalid(error)),
                }
                pos = pos + n;
                assert(rest.skip(n as int) =~= data@.skip(pos as int));
            },
        }
    }
    let mut audio: Vec<u8> = vstd::slice::slice_to_vec(&data[pos..data.len()]);
    assert(audio@ =~= data@.skip(pos as int));
    let (key_data, json, cover) = parser.into_contents();
    let mut key = Key::from_key_data(key_data.as_slice());
    key.apply(audio.as_mut_slice());
    Ok(DecodedNcm { key_data, json, cover, audio })
}

proof fn lemma_skipping_agrees(at: HeaderView, rest: Seq<u8>)
    ensures
        ({
            let read = read_header(at, rest, Skipping::Reading);
            let sought = read_header(at, rest, Skipping::Seeking);
            ||| sought == read
            ||| (sought matches Ok((_, body)) && body.len() == 0 && read == Err::<
                (HeaderView, Seq<u8>),
                _,
            >(Fault::Truncated))
        }),
    decreases at.stage.rank(),
{
    reveal(read_header);
    match at.stage.step() {
        HeaderStep::Done => {},
        HeaderStep::AcceptKey => lemma_skipping_agrees(at.after_pass(), rest),
        HeaderStep::AcceptMetadata => lemma_skipping_agrees(at.after_pass(), rest),
        HeaderStep::Skip(n) => {
            lemma_skipping_agrees(at.after_pass(), rest.skip(n as int));
            // Beyond the end, either the frame length is missing or the empty body is reached.
            assert(at.stage is Crc || at.stage is Padding);
            let next = at.after_pass();
            let past_end = read_header(next, Seq::empty(), Skipping::Seeking);
            assert(at.stage is Crc ==> next.stage.step() == HeaderStep::Read(4));
            assert(at.stage is Crc ==> past_end == Err::<(HeaderView, Seq<u8>), _>(
                Fault::Truncated,
            ));
            assert(at.stage is Padding ==> past_end == Ok::<_, Fault>((next, Seq::<u8>::empty())));
        },
        HeaderStep::Read(n) => if let Ok(next) = at.after_read(rest.take(n as int)) {
            lemma_skipping_agrees(next, rest.skip(n as int));
        },
    }
}

/// A container decodes in a file as it does in a stream, and is refused for the same fault; or else
/// a stream refuses it as truncated, and a file has no audio.
pub proof fn law_seeking_matches_reading(data: Seq<u8>)
    ensures
        ({
            let read = contents_of(data, Skipping::Reading);
            let sought = contents_of(data, Skipping::Seeking);
            ||| sought == read
            ||| (sought matches Ok(contents) && contents.audio.len() == 0 && read == Err::<
                Contents,
                _,
            >(Fault::Truncated))
        }),
{
    lemma_skipping_agrees(HeaderView::start(), data);
}

} // verus!
