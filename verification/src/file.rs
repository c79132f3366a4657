//! An opened `.ncm` file.
use crate::adapter::transform_prefix;
use crate::header::HeaderParser;
use crate::key::Key;
use crate::meta::Meta;
use vstd::prelude::*;

verus! {

use crate::adapter::transformed_prefix;
use crate::key::KeyView;

/// An opened `.ncm` file: the file, at its audio body, and what its header held.
#[derive(Debug)]
pub struct NcmFile<F> {
    file: F,
    key: Key,
    meta: Meta,
}

impl<F> NcmFile<F> {
    /// The underlying file.
    pub closed spec fn source(self) -> F {
        self.file
    }

    /// The state of the keystream.
    pub closed spec fn keystream(self) -> KeyView {
        self.key@
    }

    /// The metadata.
    pub closed spec fn metadata(self) -> Meta {
        self.meta
    }

    /// The file that has reached its body, after the header that `header` holds. `meta` is what
    /// the JSON text of the header was parsed to.
    pub fn from_header(file: F, header: HeaderParser, meta: Meta) -> (ncm: Self)
        requires
            header@.stage is Done,
        ensures
            ncm.source() == file,
            ncm.keystream() == KeyView::from_key_data(header@.key_data),
            ncm.metadata().is_with_cover(meta, header@.cover),
    {
        let (key, meta) = header.into_parts(meta);
        NcmFile { file, key, meta }
    }

    /// The underlying file, to read from.
    pub fn file_mut(&mut self) -> (file: &mut F)
        ensures
            *file == old(self).source(),
            *final(file) == final(self).source(),
            final(self).keystream() == old(self).keystream(),
            final(self).metadata() == old(self).metadata(),
    {
        &mut self.file
    }

    /// Decrypts the first `size` bytes of `buf`, which were just read into it from the file.
    pub fn finish_read(&mut self, buf: &mut [u8], size: usize)
        requires
            size <= old(buf)@.len(),
        ensures
            final(buf)@ == transformed_prefix(old(self).keystream(), old(buf)@, size as int),
            final(self).keystream() == old(self).keystream().advance(size as int),
            0 <= old(self).keystream().pos < 256,
            final(self).source() == old(self).source(),
            final(self).metadata() == old(self).metadata(),
    {
        transform_prefix(&mut self.key, buf, size);
    }

    /// The metadata, with the cover, the artists and the album.
    pub fn meta(&self) -> (meta: &Meta)
        ensures
            *meta == self.metadata(),
    {
        &self.meta
    }

    /// Where to fetch the cover from, if it has to be fetched.
    pub fn missing_cover_url(&self) -> (url: Option<&String>)
        ensures
            match url {
                Some(url) => self.metadata().missing_cover() == Some(url@),
                None => self.metadata().missing_cover() is None,
            },
    {
        self.meta.missing_cover_url()
    }

    /// Goes on after the cover was fetched: the image becomes the cover, an error is passed on.
    pub fn finish_fetch<E>(&mut self, fetched: Result<Vec<u8>, E>) -> (done: Result<(), E>)
        ensures
            match fetched {
                Ok(cover) => {
                    &&& done is Ok
                    &&& final(self).metadata().is_with_cover(old(self).metadata(), cover@)
                },
                Err(error) => {
                    &&& done == Err::<(), E>(error)
                    &&& final(self).metadata() == old(self).metadata()
                },
            },
            final(self).keystream() == old(self).keystream(),
            final(self).source() == old(self).source(),
    {
        match fetched {
            Ok(cover) => {
                self.meta.set_cover(cover);
                Ok(())
            },
            Err(error) => Err(error),
        }
    }

    /// Gives up the file for its metadata and the keystream of its audio.
    pub fn into_parts(self) -> (parts: (Meta, Key))
        ensures
            parts.0 == self.metadata(),
            parts.1@ == self.keystream(),
    {
        (self.meta, self.key)
    }

    /// Gives up the file for the keystream of its audio.
    pub fn into_cipher(self) -> (key: Key)
        ensures
            key@ == self.keystream(),
    {
        self.key
    }
}

} // verus!
