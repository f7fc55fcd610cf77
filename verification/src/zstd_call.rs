//! The one call into zstd: decompression of a single block.
use vstd::prelude::*;

verus! {

/// `std::io::Error`, the error type of zstd's calls; carried, never inspected.
#[verifier::external_type_specification]
#[verifier::external_body]
pub struct ExIoError(std::io::Error);

/// What `zstd::bulk::decompress(data, capacity)` gives: the decompressed
/// block, or `None` where the data is not one zstd frame, or its contents do
/// not fit in `capacity` bytes.
pub uninterp spec fn zstd_bulk_decompress(data: Seq<u8>, capacity: usize) -> Option<Seq<u8>>;

/// Calls `zstd::bulk::decompress(data, capacity)`.
///
/// Claimed of it: the call succeeds exactly where `zstd_bulk_decompress` names
/// a result for the same bytes and capacity, and then hands back that result,
/// which is at most `capacity` bytes long (its documentation: "the
/// decompressed data should be at most `capacity` bytes, or an error will be
/// returned"). The decompression context is created by `DCtx::create`, which
/// panics rather than fails where it cannot be allocated, and one-shot
/// decompression allocates nothing more. Left unsaid: for frames of the legacy
/// formats (v0.5 to v0.7) zstd allocates while decoding, and running out of
/// memory there makes the call fail whatever the arguments; this contract
/// does not cover that case.
#[verifier::external_body]
pub(crate) fn bulk_decompress(data: &[u8], capacity: usize) -> (res: Result<Vec<u8>, std::io::Error>)
    ensures
        res is Ok <==> zstd_bulk_decompress(data@, capacity) is Some,
        res matches Ok(out) ==> zstd_bulk_decompress(data@, capacity) == Some(out@) && out@.len()
            <= capacity,
{
    zstd::bulk::decompress(data, capacity)
}

} // verus!
