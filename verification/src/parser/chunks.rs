//! How the contents of a file come out of the downloaded parts of its
//! bundles: each chunk is cut out of its bundle's bytes and decompressed, and
//! the results follow each other in the order of the chunks.
use vstd::prelude::*;

use crate::error::ChunkError;
use crate::file::{chunk_in_u32, chunk_last_byte, Chunk};
use crate::parser::bundles::{
    chunks_in_u32, lemma_bundle_ranges_are_tight, lemma_planned_ranges_are_downloadable, range_len,
    spec_bundle_ranges, BundleRanges,
};
use crate::zstd_call::zstd_bulk_decompress;

verus! {

/// Where the compressed bytes of chunk `c` lie in the downloaded part of its
/// bundle, which starts at byte `ranges[c.0].0` of the bundle: the first and
/// the last position, both included. The checks come in this order: the
/// bundle has a range; the chunk does not start before it; the chunk's last
/// byte can be computed in `u32` and does not lie before the range; the
/// bundle has bytes; the chunk's last byte lies inside them.
pub open spec fn spec_chunk_bounds(c: Chunk, ranges: BundleRanges, bytes: Map<i64, Vec<u8>>) -> Result<
    (int, int),
    ChunkError,
> {
    if !ranges.contains_key(c.0) {
        Err(ChunkError::MissingRange)
    } else if c.1 < ranges[c.0].0 {
        Err(ChunkError::OutOfRange)
    } else if c.1 + c.3 > u32::MAX || c.1 + c.3 == 0 || chunk_last_byte(c) < ranges[c.0].0 {
        Err(ChunkError::OutOfRange)
    } else if !bytes.contains_key(c.0) {
        Err(ChunkError::MissingBytes)
    } else if chunk_last_byte(c) - ranges[c.0].0 >= bytes[c.0]@.len() {
        Err(ChunkError::OutOfRange)
    } else {
        Ok((c.1 - ranges[c.0].0, chunk_last_byte(c) - ranges[c.0].0))
    }
}

/// The decompressed contents of chunk `c`, decompressed into at most its
/// uncompressed size.
pub open spec fn spec_chunk_contents(c: Chunk, ranges: BundleRanges, bytes: Map<i64, Vec<u8>>) -> Result<
    Seq<u8>,
    ChunkError,
> {
    match spec_chunk_bounds(c, ranges, bytes) {
        Err(e) => Err(e),
        Ok((first, last)) => match zstd_bulk_decompress(
            bytes[c.0]@.subrange(first, last + 1),
            c.2 as usize,
        ) {
            Some(out) => Ok(out),
            None => Err(ChunkError::DecompressFailed),
        },
    }
}

/// The contents of a file made of `chunks`: the contents of its chunks one
/// after the other, or the error of the first chunk that fails.
pub open spec fn spec_file_contents(
    chunks: Seq<Chunk>,
    ranges: BundleRanges,
    bytes: Map<i64, Vec<u8>>,
) -> Result<Seq<u8>, ChunkError>
    decreases chunks.len(),
{
    if chunks.len() == 0 {
        Ok(Seq::empty())
    } else {
        match spec_file_contents(chunks.drop_last(), ranges, bytes) {
            Err(e) => Err(e),
            Ok(front) => match spec_chunk_contents(chunks.last(), ranges, bytes) {
                Err(e) => Err(e),
                Ok(back) => Ok(front + back),
            },
        }
    }
}

/// Sum of the uncompressed sizes of `chunks`.
pub open spec fn total_uncompressed(chunks: Seq<Chunk>) -> int
    decreases chunks.len(),
{
    if chunks.len() == 0 {
        0
    } else {
        total_uncompressed(chunks.drop_last()) + chunks.last().2
    }
}

/// Every bundle of `ranges` has bytes, as many as its range holds (what a
/// complete download of the planned ranges hands over).
pub open spec fn bytes_match_ranges(ranges: BundleRanges, bytes: Map<i64, Vec<u8>>) -> bool {
    forall|b: i64| #[trigger]
        ranges.contains_key(b) ==> bytes.contains_key(b) && bytes[b]@.len() == range_len(ranges[b])
}

/// `c` has compressed size 0 and sits at the very start of its bundle's range,
/// so its last byte lies before the range (`offset + 0 - 1 - min` underflows).
pub open spec fn empty_chunk_at_range_start(c: Chunk, ranges: BundleRanges) -> bool {
    c.3 == 0 && c.1 == ranges[c.0].0
}

/// Once every planned range of a file has been downloaded in full, cutting
/// its chunks out of the downloaded bytes never fails: each chunk lies inside
/// the bytes of its bundle, and only decompression can still fail. (The one
/// exception, left out, is a chunk of compressed size 0 at the start of its
/// bundle's range.)
pub proof fn lemma_planned_chunks_are_downloaded(chunks: Seq<Chunk>, bytes: Map<i64, Vec<u8>>)
    requires
        chunks_in_u32(chunks),
        bytes_match_ranges(spec_bundle_ranges(chunks), bytes),
        forall|j: int|
            0 <= j < chunks.len() ==> !empty_chunk_at_range_start(
                #[trigger] chunks[j],
                spec_bundle_ranges(chunks),
            ),
    ensures
        forall|j: int| 0 <= j < chunks.len() ==> #[trigger] spec_chunk_bounds(
            chunks[j],
            spec_bundle_ranges(chunks),
            bytes,
        ) is Ok,
        spec_file_contents(chunks, spec_bundle_ranges(chunks), bytes) is Ok
            || spec_file_contents(chunks, spec_bundle_ranges(chunks), bytes) == Err::<Seq<u8>, ChunkError>(
            ChunkError::DecompressFailed,
        ),
{
    let r = spec_bundle_ranges(chunks);
    lemma_bundle_ranges_are_tight(chunks);
    assert forall|j: int| 0 <= j < chunks.len() implies #[trigger] spec_chunk_bounds(
        chunks[j],
        r,
        bytes,
    ) is Ok by {
        let c = chunks[j];
        assert(chunk_in_u32(c));
        assert(!empty_chunk_at_range_start(c, r));
        assert(r.contains_key(c.0));
        assert(bytes.contains_key(c.0));
    }
    lemma_file_contents_fail_only_in_bounds(chunks, r, bytes);
}

/// Cutting a chunk out of the downloaded part of its bundle gives the same
/// bytes as cutting it at its own offset out of the whole bundle, when the
/// downloaded part is the bundle's bytes from the range's start on.
pub proof fn lemma_relative_cut_is_absolute_cut(
    c: Chunk,
    ranges: BundleRanges,
    bytes: Map<i64, Vec<u8>>,
    bundle: Seq<u8>,
)
    requires
        spec_chunk_bounds(c, ranges, bytes) is Ok,
        ranges[c.0].0 + bytes[c.0]@.len() <= bundle.len(),
        bytes[c.0]@ == bundle.subrange(
            ranges[c.0].0 as int,
            ranges[c.0].0 + bytes[c.0]@.len(),
        ),
    ensures
        spec_chunk_bounds(c, ranges, bytes) matches Ok((first, last)) && bytes[c.0]@.subrange(
            first,
            last + 1,
        ) == bundle.subrange(c.1 as int, c.1 + c.3),
{
    let min = ranges[c.0].0 as int;
    let (first, last) = spec_chunk_bounds(c, ranges, bytes)->Ok_0;
    assert(bytes[c.0]@.subrange(first, last + 1) =~= bundle.subrange(c.1 as int, c.1 + c.3));
}

/// Where every chunk's bounds are found, assembling the file can fail only in
/// decompression.
proof fn lemma_file_contents_fail_only_in_bounds(
    chunks: Seq<Chunk>,
    r: BundleRanges,
    bytes: Map<i64, Vec<u8>>,
)
    requires
        forall|j: int| 0 <= j < chunks.len() ==> #[trigger] spec_chunk_bounds(chunks[j], r, bytes) is Ok,
    ensures
        spec_file_contents(chunks, r, bytes) is Ok || spec_file_contents(chunks, r, bytes) == Err::<
            Seq<u8>,
            ChunkError,
        >(ChunkError::DecompressFailed),
    decreases chunks.len(),
{
    if chunks.len() > 0 {
        let prefix = chunks.drop_last();
        assert forall|j: int| 0 <= j < prefix.len() implies #[trigger] spec_chunk_bounds(
            prefix[j],
            r,
            bytes,
        ) is Ok by {
            assert(prefix[j] == chunks[j]);
        }
        lemma_file_contents_fail_only_in_bounds(prefix, r, bytes);
        assert(spec_chunk_bounds(chunks[chunks.len() - 1], r, bytes) is Ok);
    }
}

/// The contents of a file made of `chunks`, cut out of the whole bundles
/// `bundles` at each chunk's own offset: each chunk's compressed bytes
/// decompressed into at most its uncompressed size, one after the other, or
/// [`DecompressFailed`][ChunkError::DecompressFailed] at the first chunk that
/// does not decompress.
pub open spec fn spec_file_from_whole_bundles(chunks: Seq<Chunk>, bundles: Map<i64, Seq<u8>>) -> Result<
    Seq<u8>,
    ChunkError,
>
    decreases chunks.len(),
{
    if chunks.len() == 0 {
        Ok(Seq::empty())
    } else {
        match spec_file_from_whole_bundles(chunks.drop_last(), bundles) {
            Err(e) => Err(e),
            Ok(front) => {
                let c = chunks.last();
                match zstd_bulk_decompress(
                    bundles[c.0].subrange(c.1 as int, c.1 + c.3),
                    c.2 as usize,
                ) {
                    Some(back) => Ok(front + back),
                    None => Err(ChunkError::DecompressFailed),
                }
            },
        }
    }
}

/// The downloaded bytes of every planned bundle are the whole bundle's bytes
/// over the planned range.
pub open spec fn bytes_are_ranges_of(
    ranges: BundleRanges,
    bytes: Map<i64, Vec<u8>>,
    bundles: Map<i64, Seq<u8>>,
) -> bool {
    forall|b: i64| #[trigger]
        ranges.contains_key(b) ==> {
            &&& bundles.contains_key(b)
            &&& bytes.contains_key(b)
            &&& ranges[b].0 + range_len(ranges[b]) <= bundles[b].len()
            &&& bytes[b]@ == bundles[b].subrange(
                ranges[b].0 as int,
                ranges[b].0 + range_len(ranges[b]),
            )
        }
}

/// Assembling a file from the downloaded planned ranges of its bundles gives
/// the same contents as cutting each chunk out of its whole bundle at its own
/// offset: downloading only the planned ranges loses nothing. (Left out, as
/// in `lemma_planned_chunks_are_downloaded`: a chunk of compressed size 0 at
/// the start of its bundle's range.)
pub proof fn lemma_file_from_ranges_is_file_from_whole_bundles(
    chunks: Seq<Chunk>,
    bytes: Map<i64, Vec<u8>>,
    bundles: Map<i64, Seq<u8>>,
)
    requires
        chunks_in_u32(chunks),
        bytes_are_ranges_of(spec_bundle_ranges(chunks), bytes, bundles),
        forall|j: int|
            0 <= j < chunks.len() ==> !empty_chunk_at_range_start(
                #[trigger] chunks[j],
                spec_bundle_ranges(chunks),
            ),
    ensures
        spec_file_contents(chunks, spec_bundle_ranges(chunks), bytes) == spec_file_from_whole_bundles(
            chunks,
            bundles,
        ),
{
    let r = spec_bundle_ranges(chunks);
    lemma_bundle_ranges_are_tight(chunks);
    lemma_planned_ranges_are_downloadable(chunks);
    assert forall|b: i64| #[trigger] r.contains_key(b) implies bytes.contains_key(b)
        && bytes[b]@.len() == range_len(r[b]) by {
        assert(bytes[b]@ == bundles[b].subrange(r[b].0 as int, r[b].0 + range_len(r[b])));
    }
    assert(bytes_match_ranges(r, bytes));
    lemma_planned_chunks_are_downloaded(chunks, bytes);
    lemma_prefix_from_whole_bundles(chunks, chunks.len() as int, r, bytes, bundles);
    assert(chunks.take(chunks.len() as int) =~= chunks);
}

proof fn lemma_prefix_from_whole_bundles(
    chunks: Seq<Chunk>,
    n: int,
    r: BundleRanges,
    bytes: Map<i64, Vec<u8>>,
    bundles: Map<i64, Seq<u8>>,
)
    requires
        0 <= n <= chunks.len(),
        forall|j: int| 0 <= j < chunks.len() ==> #[trigger] spec_chunk_bounds(chunks[j], r, bytes) is Ok,
        bytes_are_ranges_of(r, bytes, bundles),
        forall|b: i64| #[trigger] r.contains_key(b) ==> range_len(r[b]) >= 0,
    ensures
        spec_file_contents(chunks.take(n), r, bytes) == spec_file_from_whole_bundles(
            chunks.take(n),
            bundles,
        ),
    decreases n,
{
    if n > 0 {
        lemma_prefix_from_whole_bundles(chunks, n - 1, r, bytes, bundles);
        let pre = chunks.take(n);
        assert(pre.drop_last() =~= chunks.take(n - 1));
        let c = chunks[n - 1];
        assert(pre.last() == c);
        assert(spec_chunk_bounds(c, r, bytes) is Ok);
        assert(r.contains_key(c.0));
        lemma_relative_cut_is_absolute_cut(c, r, bytes, bundles[c.0]);
    }
}

} // verus!
