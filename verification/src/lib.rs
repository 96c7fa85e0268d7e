//! Decoder for WAD archives: a 12-byte header followed, at an offset the
//! header names, by a directory of 16-byte records that describe the lumps
//! stored in the file.

pub mod bytes;
pub mod wad;
