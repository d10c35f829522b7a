//! Manifest decoding, cataloguing and download planning for chunked,
//! content-addressed release bundles.

pub mod catalog;
pub mod dl;
pub mod error;
pub mod fb;
pub mod hash;
pub mod raw;

pub use catalog::{Chunk, File, Manifest};
pub use dl::{DownloadBundle, DownloadChunk, DownloadFile};
pub use error::Error;
pub use hash::HashType;
