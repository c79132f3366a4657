//! Verified reading and writing of the `.ncm` audio container.
pub mod adapter;
pub mod blob;
pub mod chunk;
pub mod decode;
pub mod encode;
pub mod error;
pub mod file;
pub mod header;
pub mod key;
pub mod layout;
pub mod meta;
pub mod octets;
pub mod primitives;
pub mod stream;
pub mod tag;

pub use crate::adapter::{CipherReader, CipherWriter};
pub use crate::error::NcmError;
pub use crate::file::NcmFile;
pub use crate::key::Key;
pub use crate::meta::{Artist, Meta};
