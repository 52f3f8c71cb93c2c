//! Verified core of a small file-download server.
//!
//! The heart of the crate is a streaming ZIP64 archive generator: a plan of
//! named, size-known entries is laid out up front (`zip_builder`), and the
//! archive's exact byte sequence is produced on demand, one caller-sized
//! buffer at a time, without ever holding the whole archive in memory
//! (`zip_reader`). The binary layout of every structure is specified down to
//! the byte in `zip_format`, and the stream is proved to emit exactly that
//! layout. Two small verified helpers of the surrounding server round the
//! crate out: breadcrumb navigation over slash-separated paths and the
//! thumbnail crop-rectangle computation.

pub mod breadcrumbs;
pub mod checksum;
pub mod lex;
pub mod zip_entry;
pub mod zip_format;
pub mod thumbnails;
pub mod zip_builder;
pub mod zip_reader;
