use vstd::prelude::*;

verus! {

/// Errors that reading a manifest can end in.
#[derive(Debug, Clone, Copy, PartialEq, Eq)]
pub enum ManifestError {
    /// Reading the input failed, or it ended before the data that the header
    /// announces (a short read).
    IoError,
    /// Seeking to the compressed body failed.
    SeekError,
    /// The first four bytes are not `RMAN`; holds the value read (little endian).
    InvalidMagicBytes(u32),
    /// The major version is not the supported one; holds the value read.
    InvalidMajor(u8),
    /// zstd could not decompress the manifest body into the announced size.
    ZstdDecompressError,
}

/// Result with a [`ManifestError`] as its error.
pub type Result<T> = core::result::Result<T, ManifestError>;

/// Reasons why the chunks of a file cannot be assembled from downloaded bundles.
#[derive(Debug, Clone, Copy, PartialEq, Eq)]
pub enum ChunkError {
    /// No byte range was planned for the chunk's bundle.
    MissingRange,
    /// No bytes were downloaded for the chunk's bundle.
    MissingBytes,
    /// The chunk does not lie inside the downloaded part of its bundle.
    OutOfRange,
    /// zstd could not decompress the chunk into its uncompressed size.
    DecompressFailed,
}

} // verus!
