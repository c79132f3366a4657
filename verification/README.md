# ncmc_lib

A verified library for the `.ncm` audio container: it decodes a container to its
audio, metadata and cover image, and encodes these into a container again.

- `src/` is the library. Every function states what it returns, and Verus proves it.
  - `key`: the keystream of the audio body.
  - `octets`, `blob`: masks, lengths, and the encrypted key and metadata blobs.
  - `header`: the header, read step by step; the caller does the reading.
  - `decode`, `encode`: whole containers in memory, and the pieces of a streamed one.
  - `layout`: the layout of a container, and how decoding follows it.
  - `file`, `adapter`, `stream`: an opened file, reader and writer adapters, chunk streams.
  - `meta`, `tag`: track metadata and the ID3 tag made of it.
  - `primitives`, `chunk`, and the first part of `tag` call the crates `aes`, `ecb`,
    `base64`, `bytes` and `id3`; what they are trusted for stands at each call.
- `app/` is the I/O around it: files, `Read`/`Write`, `Stream`/`Sink`, JSON, cover download.
- `tests/` runs the library.
