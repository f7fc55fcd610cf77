use vstd::prelude::*;

verus! {

/// One chunk of a file: the id of the bundle that holds it, its offset in that
/// bundle, its size once decompressed and its compressed size, in that order.
pub type Chunk = (i64, u32, u32, u32);

/// A file that the manifest lists, with everything needed to download it.
#[derive(Debug, Default, Clone, PartialEq, Eq)]
pub struct File {
    /// Id of the file.
    pub id: i64,
    /// Name of the file.
    pub name: String,
    /// Permissions of the file.
    pub permissions: u8,
    /// Size of the file in bytes.
    pub size: u32,
    /// Path of the file, relative to the directory that the files are written to.
    pub path: String,
    /// Symbolic link of the file.
    pub symlink: String,
    /// Languages that the file applies to.
    pub languages: Vec<String>,
    /// The chunks that make up the file, in the order of their contents.
    pub chunks: Vec<Chunk>,
}

/// Bundle id of a chunk.
pub open spec fn chunk_bundle(c: Chunk) -> i64 {
    c.0
}

/// Offset of a chunk in its bundle.
pub open spec fn chunk_offset(c: Chunk) -> int {
    c.1 as int
}

/// Decompressed size of a chunk.
pub open spec fn chunk_uncompressed_size(c: Chunk) -> int {
    c.2 as int
}

/// Compressed size of a chunk.
pub open spec fn chunk_compressed_size(c: Chunk) -> int {
    c.3 as int
}

/// Position of the last compressed byte of a chunk in its bundle.
pub open spec fn chunk_last_byte(c: Chunk) -> int {
    c.1 + c.3 - 1
}

/// A chunk whose end (`offset + compressed_size`) and last byte position
/// (`offset + compressed_size - 1`) can be computed in `u32` without overflow:
/// its end is at least 1 and fits in `u32`. A chunk of compressed size 0 at a
/// non-zero offset is such a chunk.
pub open spec fn chunk_in_u32(c: Chunk) -> bool {
    1 <= c.1 + c.3 && c.1 + c.3 <= u32::MAX
}

} // verus!
