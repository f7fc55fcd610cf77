use vstd::prelude::*;

verus! {

/// The body of a manifest, once decompressed: a flatbuffer of the manifest's
/// entries (bundles, languages, files, directories, keys and params).
#[derive(Debug, Default, Clone, PartialEq, Eq)]
pub struct ManifestData {
    /// The decompressed flatbuffer.
    pub flatbuffer: Vec<u8>,
}

} // verus!
