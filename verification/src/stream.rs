//! Decoding and encoding the audio body as a stream of chunks.
//!
//! Polling is the caller's; the types here say what a poll of the underlying stream leads to.
use crate::adapter::transform_prefix;
use crate::chunk::{
    bytes_as_slice, bytes_freeze, bytes_from_slice, bytes_mut_as_slice, bytes_mut_from_slice,
};
use crate::decode::Skipping;
use crate::header::HeaderParser;
use crate::key::Key;
use crate::meta::Meta;
use bytes::Bytes;
use vstd::prelude::*;

verus! {

use crate::adapter::transformed_prefix;
use crate::chunk::bytes_contents;
use crate::decode::{contents_of, law_seeking_matches_reading, read_header};
use crate::header::HeaderView;
use crate::key::{law_transform_in_chunks, law_transform_is_symmetric, KeyView};

/// The size of the buffer that the decoded body is read into.
pub const CHUNK: usize = 8192;

/// What polling something gave.
#[derive(Debug)]
pub enum Progress<T> {
    /// Nothing yet.
    Pending,
    /// A value.
    Ready(T),
}

/// Transforms a copy of `data` in a buffer of its own.
fn transform_chunk(key: &mut Key, data: &[u8]) -> (chunk: Bytes)
    ensures
        bytes_contents(chunk) == old(key)@.transform(data@),
        final(key)@ == old(key)@.advance(data@.len() as int),
        0 <= old(key)@.pos < 256,
{
    let mut buf = bytes_mut_from_slice(data);
    key.apply(bytes_mut_as_slice(&mut buf));
    bytes_freeze(buf)
}

/// A decoded `.ncm` audio stream: the reader that the header was read from, and what the header
/// held.
#[derive(Debug)]
pub struct NcmStream<R> {
    reader: R,
    key: Key,
    meta: Meta,
}

impl<R> NcmStream<R> {
    /// The underlying reader.
    pub closed spec fn source(self) -> R {
        self.reader
    }

    /// The state of the keystream.
    pub closed spec fn keystream(self) -> KeyView {
        self.key@
    }

    /// The metadata.
    pub closed spec fn metadata(self) -> Meta {
        self.meta
    }

    /// The stream over the body that `reader` has reached, after the header that `header` holds.
    /// `meta` is what the JSON text of the header was parsed to.
    pub fn from_header(reader: R, header: HeaderParser, meta: Meta) -> (stream: Self)
        requires
            header@.stage is Done,
        ensures
            stream.source() == reader,
            stream.keystream() == KeyView::from_key_data(header@.key_data),
            stream.metadata().is_with_cover(meta, header@.cover),
    {
        let (key, meta) = header.into_parts(meta);
        NcmStream { reader, key, meta }
    }

    /// The metadata, with the embedded cover if there is one.
    pub fn meta(&self) -> (meta: &Meta)
        ensures
            *meta == self.metadata(),
    {
        &self.meta
    }

    /// The underlying reader, to poll.
    pub fn reader_mut(&mut self) -> (reader: &mut R)
        ensures
            *reader == old(self).source(),
            *final(reader) == final(self).source(),
            final(self).keystream() == old(self).keystream(),
            final(self).metadata() == old(self).metadata(),
    {
        &mut self.reader
    }

    /// Goes on after the reader was polled to read into `buf`.
    ///
    /// That nothing was read ends the stream. What was read is decrypted, in `buf` and as a chunk.
    pub fn finish_poll<E>(
        &mut self,
        buf: &mut [u8],
        polled: Progress<Result<usize, E>>,
    ) -> (item: Progress<Option<Result<Bytes, E>>>)
        requires
            polled matches Progress::Ready(Ok(n)) ==> n <= old(buf)@.len(),
        ensures
            final(self).source() == old(self).source(),
            final(self).metadata() == old(self).metadata(),
            match polled {
                Progress::Ready(Ok(n)) => {
                    &&& final(self).keystream() == old(self).keystream().advance(n as int)
                    &&& 0 <= old(self).keystream().pos < 256
                    &&& final(buf)@ == transformed_prefix(
                        old(self).keystream(),
                        old(buf)@,
                        n as int,
                    )
                },
                _ => final(self).keystream() == old(self).keystream() && final(buf)@ == old(buf)@,
            },
            match polled {
                Progress::Pending => item is Pending,
                Progress::Ready(Err(error)) => item == Progress::Ready(
                    Some(Err::<Bytes, E>(error)),
                ),
                Progress::Ready(Ok(n)) => if n == 0 {
                    item == Progress::Ready(None::<Result<Bytes, E>>)
                } else {
                    item matches Progress::Ready(Some(Ok(chunk))) && bytes_contents(chunk)
                        == old(self).keystream().transform(old(buf)@.take(n as int))
                },
            },
    {
        match polled {
            Progress::Pending => Progress::Pending,
            Progress::Ready(Err(error)) => Progress::Ready(Some(Err(error))),
            Progress::Ready(Ok(n)) => {
                let ghost data = buf@;
                transform_prefix(&mut self.key, buf, n);
                if n == 0 {
                    return Progress::Ready(None);
                }
                let chunk = bytes_from_slice(&buf[0..n]);
                assert(bytes_contents(chunk) =~= old(self).keystream().transform(
                    data.take(n as int),
                ));
                Progress::Ready(Some(Ok(chunk)))
            },
        }
    }
}

/// Transforms the chunks of an underlying stream.
///
/// The transform is symmetric: it decrypts as well as encrypts.
#[derive(Debug)]
pub struct DecryptStream<S> {
    inner: S,
    key: Key,
}

impl<S> DecryptStream<S> {
    /// The underlying stream.
    pub closed spec fn source(self) -> S {
        self.inner
    }

    /// The state of the keystream.
    pub closed spec fn keystream(self) -> KeyView {
        self.key@
    }

    /// Wraps `inner`, transforming each chunk with `key`.
    pub fn new(inner: S, key: Key) -> (stream: Self)
        ensures
            stream.source() == inner,
            stream.keystream() == key@,
    {
        DecryptStream { inner, key }
    }

    /// Gives the underlying stream back.
    pub fn into_inner(self) -> (inner: S)
        ensures
            inner == self.source(),
    {
        self.inner
    }

    /// The underlying stream, to poll.
    pub fn inner_mut(&mut self) -> (inner: &mut S)
        ensures
            *inner == old(self).source(),
            *final(inner) == final(self).source(),
            final(self).keystream() == old(self).keystream(),
    {
        &mut self.inner
    }

    /// Goes on after the underlying stream was polled: a chunk is transformed, and everything else
    /// is passed on.
    pub fn finish_poll<E>(&mut self, polled: Progress<Option<Result<&[u8], E>>>) -> (item: Progress<
        Option<Result<Bytes, E>>,
    >)
        ensures
            final(self).source() == old(self).source(),
            match polled {
                Progress::Ready(Some(Ok(data))) => {
                    &&& final(self).keystream() == old(self).keystream().advance(
                        data@.len() as int,
                    )
                    &&& 0 <= old(self).keystream().pos < 256
                    &&& item matches Progress::Ready(Some(Ok(chunk))) && bytes_contents(chunk)
                        == old(self).keystream().transform(data@)
                },
                Progress::Ready(Some(Err(error))) => {
                    &&& final(self).keystream() == old(self).keystream()
                    &&& item == Progress::Ready(Some(Err::<Bytes, E>(error)))
                },
                Progress::Ready(None) => {
                    &&& final(self).keystream() == old(self).keystream()
                    &&& item == Progress::Ready(None::<Result<Bytes, E>>)
                },
                Progress::Pending => {
                    &&& final(self).keystream() == old(self).keystream()
                    &&& item is Pending
                },
            },
    {
        match polled {
            Progress::Ready(Some(Ok(data))) => {
                Progress::Ready(Some(Ok(transform_chunk(&mut self.key, data))))
            },
            Progress::Ready(Some(Err(error))) => Progress::Ready(Some(Err(error))),
            Progress::Ready(None) => Progress::Ready(None),
            Progress::Pending => Progress::Pending,
        }
    }
}

/// Transforms each chunk before it is sent to an underlying sink.
///
/// The counterpart of [`DecryptStream`]; symmetric too, so it also decrypts.
#[derive(Debug)]
pub struct EncryptSink<Si> {
    inner: Si,
    key: Key,
}

impl<Si> EncryptSink<Si> {
    /// The underlying sink.
    pub closed spec fn target(self) -> Si {
        self.inner
    }

    /// The state of the keystream.
    pub closed spec fn keystream(self) -> KeyView {
        self.key@
    }

    /// Wraps `inner`, transforming each chunk with `key` before it is sent.
    pub fn new(inner: Si, key: Key) -> (sink: Self)
        ensures
            sink.target() == inner,
            sink.keystream() == key@,
    {
        EncryptSink { inner, key }
    }

    /// Gives the underlying sink back.
    pub fn into_inner(self) -> (inner: Si)
        ensures
            inner == self.target(),
    {
        self.inner
    }

    /// The underlying sink, to poll and send to.
    pub fn inner_mut(&mut self) -> (inner: &mut Si)
        ensures
            *inner == old(self).target(),
            *final(inner) == final(self).target(),
            final(self).keystream() == old(self).keystream(),
    {
        &mut self.inner
    }

    /// The chunk to send to the underlying sink for `item`.
    pub fn begin_send(&mut self, item: Bytes) -> (chunk: Bytes)
        ensures
            bytes_contents(chunk) == old(self).keystream().transform(bytes_contents(item)),
            final(self).keystream() == old(self).keystream().advance(
                bytes_contents(item).len() as int,
            ),
            0 <= old(self).keystream().pos < 256,
            final(self).target() == old(self).target(),
    {
        transform_chunk(&mut self.key, bytes_as_slice(&item))
    }
}

/// The chunks that come out of a stream or sink for the chunks that go in, one for one, the
/// keystream running on from chunk to chunk.
pub open spec fn transform_chunks(key: KeyView, chunks: Seq<Seq<u8>>) -> Seq<Seq<u8>>
    decreases chunks.len(),
{
    if chunks.len() == 0 {
        Seq::empty()
    } else {
        seq![key.transform(chunks.first())] + transform_chunks(
            key.advance(chunks.first().len() as int),
            chunks.drop_first(),
        )
    }
}

/// However data is cut into chunks, the chunks that come out make up the transformed data.
pub proof fn law_chunks_join(key: KeyView, chunks: Seq<Seq<u8>>)
    ensures
        transform_chunks(key, chunks).flatten() == key.transform(chunks.flatten()),
    decreases chunks.len(),
{
    if chunks.len() == 0 {
        assert(transform_chunks(key, chunks).flatten() =~= key.transform(chunks.flatten()));
    } else {
        let first = chunks.first();
        let rest = chunks.drop_first();
        let key2 = key.advance(first.len() as int);
        law_chunks_join(key2, rest);
        law_transform_in_chunks(key, first, rest.flatten());
        let out = transform_chunks(key, chunks);
        assert(out.drop_first() =~= transform_chunks(key2, rest));
        assert(out.first() == key.transform(first));
    }
}

/// Chunks that went through once and go through again, from the same keystream state, come out as
/// they first went in.
pub proof fn law_chunks_are_symmetric(key: KeyView, chunks: Seq<Seq<u8>>)
    ensures
        transform_chunks(key, transform_chunks(key, chunks)) == chunks,
    decreases chunks.len(),
{
    if chunks.len() == 0 {
        assert(transform_chunks(key, transform_chunks(key, chunks)) =~= chunks);
    } else {
        let first = chunks.first();
        let rest = chunks.drop_first();
        let key2 = key.advance(first.len() as int);
        law_chunks_are_symmetric(key2, rest);
        law_transform_is_symmetric(key, first);
        let out = transform_chunks(key, chunks);
        assert(out.drop_first() =~= transform_chunks(key2, rest));
        assert(out.first() == key.transform(first));
        assert(transform_chunks(key, out) =~= seq![first] + rest);
        assert(seq![first] + rest =~= chunks);
    }
}

/// Decoding a container from a stream, its body chunk by chunk, gives the same audio, metadata and
/// cover as decoding it as a whole from a file, however the body is cut.
pub proof fn law_stream_decode_matches_file(data: Seq<u8>, chunks: Seq<Seq<u8>>)
    requires
        read_header(HeaderView::start(), data, Skipping::Reading) matches Ok((header, body))
            && chunks.flatten() == body,
    ensures
        ({
            let header = read_header(HeaderView::start(), data, Skipping::Reading)->Ok_0.0;
            &&& contents_of(data, Skipping::Seeking) matches Ok(contents)
            &&& transform_chunks(KeyView::from_key_data(header.key_data), chunks).flatten()
                == contents.audio
            &&& header.json == contents.json
            &&& header.cover == contents.cover
        }),
{
    let header = read_header(HeaderView::start(), data, Skipping::Reading)->Ok_0.0;
    law_chunks_join(KeyView::from_key_data(header.key_data), chunks);
    law_seeking_matches_reading(data);
}

/// Each chunk that comes out is the transform of the chunk that went in at its place, by the
/// keystream that follows all the bytes before it.
pub proof fn law_chunks_one_for_one(key: KeyView, chunks: Seq<Seq<u8>>, i: int)
    requires
        0 <= i < chunks.len(),
    ensures
        transform_chunks(key, chunks).len() == chunks.len(),
        transform_chunks(key, chunks)[i] == key.advance(
            chunks.take(i).flatten().len() as int,
        ).transform(chunks[i]),
    decreases chunks.len(),
{
    let first = chunks.first();
    let rest = chunks.drop_first();
    let key2 = key.advance(first.len() as int);
    let out = transform_chunks(key, chunks);
    if rest.len() > 0 {
        law_chunks_one_for_one(key2, rest, if i > 0 { i - 1 } else { 0 });
    } else {
        assert(transform_chunks(key2, rest) =~= Seq::<Seq<u8>>::empty());
    }
    if i == 0 {
        let none = Seq::<u8>::empty();
        assert(chunks.take(0).flatten() =~= none);
        law_transform_in_chunks(key, none, first);
        assert(none + first =~= first);
        assert(key.transform(none) + key.advance(0).transform(first) =~= key.advance(0).transform(
            first,
        ));
    } else {
        let before = rest.take(i - 1).flatten();
        assert(chunks.take(i).drop_first() =~= rest.take(i - 1));
        assert(chunks.take(i).first() == first);
        assert(chunks.take(i).flatten() == first + before);
        crate::key::law_keystream_moves_on(key, first.len() as int, before.len() as int);
        assert(out[i] == transform_chunks(key2, rest)[i - 1]);
    }
}

} // verus!
