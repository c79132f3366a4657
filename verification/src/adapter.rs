//! Adapters that transform the audio body on its way from a reader or to a writer.
//!
//! The reading and writing itself is the caller's; the adapters say what becomes of the bytes.
use crate::key::Key;
use vstd::prelude::*;

verus! {

use crate::key::{law_transform_in_chunks, KeyView};

/// `buf` after its first `size` bytes, which were just read, have been transformed with `key`.
pub open spec fn transformed_prefix(key: KeyView, buf: Seq<u8>, size: int) -> Seq<u8> {
    key.transform(buf.take(size)) + buf.skip(size)
}

/// The keystream `key` after a write that began at position `start` has been settled as `outcome`:
/// right after the bytes that were written, none if the write failed.
pub open spec fn settled<E>(key: KeyView, start: u8, outcome: Result<usize, E>) -> KeyView {
    KeyView {
        cells: key.cells,
        pos: match outcome {
            Ok(written) => (start + written) % 256,
            Err(_) => start as int,
        },
    }
}

/// Transforms the first `size` bytes of `buf` with `key` and leaves the others alone.
pub(crate) fn transform_prefix(key: &mut Key, buf: &mut [u8], size: usize)
    requires
        size <= old(buf)@.len(),
    ensures
        final(buf)@ == transformed_prefix(old(key)@, old(buf)@, size as int),
        final(key)@ == old(key)@.advance(size as int),
        0 <= old(key)@.pos < 256,
{
    let (head, tail) = buf.split_at_mut(size);
    key.apply(head);
}

/// Transforms bytes as they are read from an underlying reader.
///
/// The transform is symmetric: it decrypts an encrypted body and encrypts a plaintext one.
#[derive(Debug)]
pub struct CipherReader<R> {
    inner: R,
    key: Key,
}

impl<R> CipherReader<R> {
    /// The underlying reader.
    pub closed spec fn reader(self) -> R {
        self.inner
    }

    /// The state of the keystream.
    pub closed spec fn keystream(self) -> KeyView {
        self.key@
    }

    /// Wraps `inner`, transforming bytes with `key` as they are read.
    pub fn new(inner: R, key: Key) -> (adapter: Self)
        ensures
            adapter.reader() == inner,
            adapter.keystream() == key@,
    {
        CipherReader { inner, key }
    }

    /// Gives the underlying reader back.
    pub fn into_inner(self) -> (inner: R)
        ensures
            inner == self.reader(),
    {
        self.inner
    }

    /// The underlying reader, to read from.
    pub fn inner_mut(&mut self) -> (inner: &mut R)
        ensures
            *inner == old(self).reader(),
            *final(inner) == final(self).reader(),
            final(self).keystream() == old(self).keystream(),
    {
        &mut self.inner
    }

    /// Transforms the first `size` bytes of `buf`, which were just read into it.
    pub fn finish_read(&mut self, buf: &mut [u8], size: usize)
        requires
            size <= old(buf)@.len(),
        ensures
            final(buf)@ == transformed_prefix(old(self).keystream(), old(buf)@, size as int),
            final(self).keystream() == old(self).keystream().advance(size as int),
            0 <= old(self).keystream().pos < 256,
            final(self).reader() == old(self).reader(),
    {
        transform_prefix(&mut self.key, buf, size);
    }
}

/// Transforms bytes before they are written to an underlying writer.
///
/// The transform is symmetric: it encrypts a plaintext body and decrypts an encrypted one.
#[derive(Debug)]
pub struct CipherWriter<W> {
    inner: W,
    key: Key,
}

impl<W> CipherWriter<W> {
    /// The underlying writer.
    pub closed spec fn writer(self) -> W {
        self.inner
    }

    /// The state of the keystream.
    pub closed spec fn keystream(self) -> KeyView {
        self.key@
    }

    /// Wraps `inner`, transforming bytes with `key` before they are written.
    pub fn new(inner: W, key: Key) -> (adapter: Self)
        ensures
            adapter.writer() == inner,
            adapter.keystream() == key@,
    {
        CipherWriter { inner, key }
    }

    /// Gives the underlying writer back.
    pub fn into_inner(self) -> (inner: W)
        ensures
            inner == self.writer(),
    {
        self.inner
    }

    /// The underlying writer, to write to.
    pub fn inner_mut(&mut self) -> (inner: &mut W)
        ensures
            *inner == old(self).writer(),
            *final(inner) == final(self).writer(),
            final(self).keystream() == old(self).keystream(),
    {
        &mut self.inner
    }

    /// Transforms a copy of `buf` for writing, advancing the keystream over all of it. The result
    /// is the keystream position before, which [`CipherWriter::settle_write`] needs, and the copy.
    pub fn begin_write(&mut self, buf: &[u8]) -> (pending: (u8, Vec<u8>))
        ensures
            pending.0 as int == old(self).keystream().pos,
            pending.1@ == old(self).keystream().transform(buf@),
            final(self).keystream() == old(self).keystream().advance(buf@.len() as int),
            final(self).writer() == old(self).writer(),
    {
        let start: u8 = self.key.position();
        let mut tmp: Vec<u8> = vstd::slice::slice_to_vec(buf);
        self.key.apply(tmp.as_mut_slice());
        (start, tmp)
    }

    /// Settles a write that began at keystream position `start` and of which `written` bytes were
    /// written: the keystream goes on right after those.
    pub fn finish_write(&mut self, start: u8, written: usize)
        ensures
            final(self).keystream() == (KeyView {
                cells: old(self).keystream().cells,
                pos: (start + written) % 256,
            }),
            final(self).writer() == old(self).writer(),
    {
        self.key.seek(start.wrapping_add((written % 256) as u8));
    }

    /// Settles a write that began at keystream position `start` and came out as `outcome`, which is
    /// handed on: the keystream goes on right after the bytes that were written, and where it
    /// began if the write failed.
    pub fn settle_write<E>(&mut self, start: u8, outcome: Result<usize, E>) -> (done: Result<
        usize,
        E,
    >)
        ensures
            done == outcome,
            final(self).keystream() == settled(old(self).keystream(), start, outcome),
            final(self).keystream().cells == old(self).keystream().cells,
            outcome matches Ok(written) ==> final(self).keystream().pos == (start + written) % 256,
            outcome is Err ==> final(self).keystream().pos == start,
            final(self).writer() == old(self).writer(),
    {
        match outcome {
            Ok(written) => {
                self.finish_write(start, written);
                Ok(written)
            },
            Err(error) => {
                self.key.seek(start);
                Err(error)
            },
        }
    }
}

/// A failed write, once settled, leaves the keystream where it was, so that the next write is
/// transformed as if the failed one had not been made. `key` is the keystream before the write of
/// `buf`.
pub proof fn law_failed_write_is_undone<E>(key: KeyView, buf: Seq<u8>, start: u8, error: E)
    requires
        start == key.pos,
    ensures
        settled(key.advance(buf.len() as int), start, Err::<usize, E>(error)) == key,
{
}

/// After a write of which only the first `written` bytes went out, the keystream stands where it
/// would if only those had been transformed, and what went out is what transforming only those
/// gives. `key` is the keystream before the write.
pub proof fn law_short_write_is_exact(key: KeyView, buf: Seq<u8>, written: int)
    requires
        0 <= written <= buf.len(),
    ensures
        key.transform(buf).take(written) == key.transform(buf.take(written)),
        (KeyView { cells: key.advance(buf.len() as int).cells, pos: (key.pos + written) % 256 })
            == key.advance(written),
{
    assert(key.transform(buf).take(written) =~= key.transform(buf.take(written)));
}

/// A write of which `written` bytes went out, once settled, leaves the keystream exactly where
/// transforming only those bytes would, and the write after it goes on from there: what went out of
/// both is the transform of the bytes that were written, joined. `key` is the keystream before the
/// first write.
pub proof fn law_settled_writes_join<E>(
    key: KeyView,
    buf: Seq<u8>,
    start: u8,
    written: usize,
    next: Seq<u8>,
)
    requires
        start == key.pos,
        written <= buf.len(),
    ensures
        ({
            let after = settled(key.advance(buf.len() as int), start, Ok::<usize, E>(written));
            &&& after == key.advance(written as int)
            &&& after.pos == (key.pos + written) % 256
            &&& key.transform(buf).take(written as int) + after.transform(next) == key.transform(
                buf.take(written as int) + next,
            )
        }),
{
    law_short_write_is_exact(key, buf, written as int);
    law_transform_in_chunks(key, buf.take(written as int), next);
}

/// After a read of `size` bytes, those bytes are transformed, each by its own place, and the rest
/// of the buffer is as it was.
pub proof fn law_read_transforms_only_what_was_read(key: KeyView, buf: Seq<u8>, size: int, i: int)
    requires
        0 <= size <= buf.len(),
        0 <= i < buf.len(),
    ensures
        transformed_prefix(key, buf, size).len() == buf.len(),
        i < size ==> transformed_prefix(key, buf, size)[i] == key.transform(buf)[i],
        i >= size ==> transformed_prefix(key, buf, size)[i] == buf[i],
{
}

/// What two reads give, one after the other, is the transform of what was read, joined.
pub proof fn law_reads_join(key: KeyView, first: Seq<u8>, m: int, second: Seq<u8>, n: int)
    requires
        0 <= m <= first.len(),
        0 <= n <= second.len(),
    ensures
        transformed_prefix(key, first, m).take(m) + transformed_prefix(
            key.advance(m),
            second,
            n,
        ).take(n) == key.transform(first.take(m) + second.take(n)),
{
    law_transform_in_chunks(key, first.take(m), second.take(n));
    assert(transformed_prefix(key, first, m).take(m) =~= key.transform(first.take(m)));
    assert(transformed_prefix(key.advance(m), second, n).take(n) =~= key.advance(m).transform(
        second.take(n),
    ));
}

} // verus!
