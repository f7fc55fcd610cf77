//! Reading of Riot Games `RMAN` release manifests, and the planning and
//! assembly steps of downloading the files that a manifest lists.
//!
//! The library takes and gives plain values: the bytes of a manifest file, the
//! files to fetch, the bytes fetched from the CDN. Reading from disk, talking
//! to the CDN and writing files are the caller's part.
pub mod downloader;
pub mod entries;
pub mod error;
pub mod file;
pub mod fmt;
pub mod parser;
pub mod zstd_call;

pub use crate::error::{ChunkError, ManifestError, Result};
pub use crate::file::{Chunk, File};
pub use crate::parser::fetch::{FetchAction, FetchOutcome};
pub use crate::parser::header::Header;
pub use crate::parser::manifest::ManifestData;
pub use crate::parser::RiotManifest;
