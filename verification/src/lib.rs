//! Read-only access to Bethesda Softworks Archives (BSA), versions 103, 104
//! and 105: the code page of the names, the name hash, the record decoder and
//! the accessor that hands out a file's contents.

pub mod browse;
pub mod bsa;
pub mod codec;
pub mod cp1252;
pub mod error;
pub mod flags;
pub mod format;
pub mod hash;
pub mod laws;
pub mod stream;
pub mod text;

pub use crate::bsa::{read, Bsa, File, Folder};
pub use crate::error::{ContentsError, ReadError};
