//! The entries of a manifest's flatbuffer, kept as plain structures.
//!
//! NOTE: these structs are only useful for viewing the internal structure of
//! the manifest's body. To see the files it lists and download them, see
//! [File][crate::File].
pub mod file_entry;

pub use self::file_entry::{FileEntry, FileTable};
