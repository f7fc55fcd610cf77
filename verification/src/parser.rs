pub mod bundles;
pub mod chunks;
pub mod fetch;
pub mod header;
pub mod manifest;

use std::collections::HashMap;

use vstd::prelude::*;

use crate::error::{ChunkError, ManifestError};
use crate::file::{chunk_in_u32, Chunk, File};
use crate::fmt::{push_decimal, push_hex_digits};
use crate::parser::bundles::{
    chunks_in_u32, files_in_u32, merge_chunk, range_len, spec_bundle_file_name, spec_bundle_ranges,
    spec_bundle_url, spec_prepare_bundles, spec_range_header, BundleRanges,
};
use crate::parser::chunks::{
    spec_chunk_bounds, spec_chunk_contents, spec_file_contents, total_uncompressed,
};
use crate::parser::header::{spec_parse_header, Header};
use crate::parser::manifest::ManifestData;
use crate::zstd_call::{bulk_decompress, zstd_bulk_decompress};

verus! {

broadcast use vstd::std_specs::hash::group_hash_axioms;

/// A parsed manifest.
#[derive(Debug, Default, Clone, PartialEq, Eq)]
pub struct RiotManifest {
    /// The manifest's header.
    pub header: Header,
    /// The manifest's body.
    pub data: ManifestData,
}

/// The ranges of each file that a plan holds, seen as maps.
pub open spec fn plan_view(plan: Map<i64, HashMap<i64, (u32, u32)>>) -> Map<i64, BundleRanges> {
    plan.map_values(|m: HashMap<i64, (u32, u32)>| m@)
}

/// The compressed body that `header` announces can be read from a file of
/// `len` bytes: it is empty (reading nothing succeeds wherever it starts), or
/// it ends inside the file.
pub open spec fn body_in_file(header: Header, len: nat) -> bool {
    header.compressed_size == 0 || header.offset + header.compressed_size <= len
}

/// The compressed body that `header` announces, in the file `bytes`.
pub open spec fn compressed_body(header: Header, bytes: Seq<u8>) -> Seq<u8> {
    if header.compressed_size == 0 {
        Seq::empty()
    } else {
        bytes.subrange(header.offset as int, header.offset + header.compressed_size)
    }
}

/// What parsing the manifest file `bytes` gives: its header and its
/// decompressed body, or the first error among reading the header, finding
/// the whole compressed body in the file, and decompressing it.
pub open spec fn spec_manifest_from_bytes(bytes: Seq<u8>) -> Result<(Header, Seq<u8>), ManifestError> {
    match spec_parse_header(bytes) {
        Err(e) => Err(e),
        Ok(h) => if !body_in_file(h, bytes.len()) {
            Err(ManifestError::IoError)
        } else {
            match zstd_bulk_decompress(compressed_body(h, bytes), h.uncompressed_size as usize) {
                Some(body) => Ok((h, body)),
                None => Err(ManifestError::ZstdDecompressError),
            }
        },
    }
}

impl RiotManifest {
    /// Parses a whole manifest file held in `bytes`: reads the header, cuts out
    /// the compressed body that it announces (`compressed_size` bytes from
    /// `offset` on) and decompresses it into at most `uncompressed_size` bytes.
    ///
    /// # Errors
    ///
    /// The error of [`Header::from_bytes`] where the header cannot be read;
    /// [`IoError`][ManifestError::IoError] where the file ends before the end
    /// of the body; [`ZstdDecompressError`][ManifestError::ZstdDecompressError]
    /// where zstd fails on the body.
    pub fn from_bytes(bytes: &[u8]) -> (res: crate::error::Result<RiotManifest>)
        ensures
            match spec_manifest_from_bytes(bytes@) {
                Ok((h, body)) => res matches Ok(m) && m.header == h && m.data.flatbuffer@ == body,
                Err(e) => res == Err::<RiotManifest, ManifestError>(e),
            },
    {
        let header = Header::from_bytes(bytes)?;
        let start = header.offset as usize;
        let len = header.compressed_size as usize;
        if len == 0 {
            let empty: [u8; 0] = [];
            assert(empty@ =~= compressed_body(header, bytes@));
            return Self::from_body(header, &empty);
        }
        if start > bytes.len() || len > bytes.len() - start {
            return Err(ManifestError::IoError);
        }
        let compressed = vstd::slice::slice_subrange(bytes, start, start + len);
        Self::from_body(header, compressed)
    }

    /// The manifest with header `header` whose compressed body is `body`:
    /// decompresses `body` into at most `uncompressed_size` bytes.
    ///
    /// # Errors
    ///
    /// [`ZstdDecompressError`][ManifestError::ZstdDecompressError] where zstd
    /// fails on the body.
    pub fn from_body(header: Header, body: &[u8]) -> (res: crate::error::Result<RiotManifest>)
        ensures
            match zstd_bulk_decompress(body@, header.uncompressed_size as usize) {
                Some(flatbuffer) => res matches Ok(m) && m.header == header
                    && m.data.flatbuffer@ == flatbuffer,
                None => res == Err::<RiotManifest, ManifestError>(ManifestError::ZstdDecompressError),
            },
    {
        let decompressed = match bulk_decompress(body, header.uncompressed_size as usize) {
            Ok(flatbuffer) => Some(flatbuffer),
            Err(_) => None,
        };
        Self::from_decompressed(header, decompressed)
    }

    /// The manifest with header `header` whose body decompressed into `body`,
    /// or [`ZstdDecompressError`][ManifestError::ZstdDecompressError] where
    /// decompression failed (`body` is `None`).
    pub fn from_decompressed(header: Header, body: Option<Vec<u8>>) -> (res: crate::error::Result<
        RiotManifest,
    >)
        ensures
            match body {
                Some(flatbuffer) => res == Ok::<RiotManifest, ManifestError>(
                    RiotManifest { header, data: ManifestData { flatbuffer } },
                ),
                None => res == Err::<RiotManifest, ManifestError>(ManifestError::ZstdDecompressError),
            },
    {
        match body {
            Some(flatbuffer) => Ok(RiotManifest { header, data: ManifestData { flatbuffer } }),
            None => Err(ManifestError::ZstdDecompressError),
        }
    }

    /// The byte ranges to download for the chunks `chunks`, keyed by bundle id.
    fn bundle_ranges(chunks: &Vec<Chunk>) -> (ranges: HashMap<i64, (u32, u32)>)
        requires
            chunks_in_u32(chunks@),
        ensures
            ranges@ == spec_bundle_ranges(chunks@),
    {
        let mut ranges: HashMap<i64, (u32, u32)> = HashMap::new();
        let mut i: usize = 0;
        while i < chunks.len()
            invariant
                i <= chunks@.len(),
                chunks_in_u32(chunks@),
                ranges@ == spec_bundle_ranges(chunks@.take(i as int)),
            decreases chunks@.len() - i,
        {
            let chunk = chunks[i];
            let (bundle_id, offset, _uncompressed_size, compressed_size) = chunk;
            assert(chunk_in_u32(chunks@[i as int]));
            let from = offset;
            let to = offset + compressed_size - 1;
            let ghost before = ranges@;
            match ranges.get(&bundle_id) {
                Some(range) => {
                    let (min, max) = *range;
                    let lo = if from < min { from } else { min };
                    let hi = if to > max { to } else { max };
                    ranges.insert(bundle_id, (lo, hi));
                },
                None => {
                    ranges.insert(bundle_id, (from, to));
                },
            }
            proof {
                assert(chunks@.take(i + 1).drop_last() =~= chunks@.take(i as int));
                assert(ranges@ =~= merge_chunk(before, chunks@[i as int]));
            }
            i = i + 1;
        }
        assert(chunks@.take(chunks@.len() as int) =~= chunks@);
        ranges
    }

    /// Plans the downloads for `files`: for each file id, the byte ranges of the
    /// bundles that hold the file's chunks. Where two files share an id, the
    /// later one's ranges stand.
    pub fn prepare_bundles(files: &[File]) -> (bundles: HashMap<i64, HashMap<i64, (u32, u32)>>)
        requires
            files_in_u32(files@),
        ensures
            plan_view(bundles@) == spec_prepare_bundles(files@),
    {
        let mut bundles: HashMap<i64, HashMap<i64, (u32, u32)>> = HashMap::new();
        let mut i: usize = 0;
        while i < files.len()
            invariant
                i <= files@.len(),
                files_in_u32(files@),
                plan_view(bundles@) == spec_prepare_bundles(files@.take(i as int)),
            decreases files@.len() - i,
        {
            let file = &files[i];
            assert forall|j: int| 0 <= j < file.chunks@.len() implies #[trigger] chunk_in_u32(
                file.chunks@[j],
            ) by {
                assert(chunk_in_u32(files@[i as int].chunks@[j]));
            }
            let ranges = Self::bundle_ranges(&file.chunks);
            let ghost before = bundles@;
            bundles.insert(file.id, ranges);
            proof {
                assert(files@.take(i + 1).drop_last() =~= files@.take(i as int));
                assert(plan_view(bundles@) =~= plan_view(before).insert(file.id, ranges@));
            }
            i = i + 1;
        }
        assert(files@.take(files@.len() as int) =~= files@);
        bundles
    }

    /// Name of the bundle `bundle_id` on the CDN, such as
    /// `0123456789ABCDEF.bundle`.
    pub fn bundle_file_name(bundle_id: i64) -> (name: String)
        ensures
            name@ == spec_bundle_file_name(bundle_id),
    {
        let mut name = String::new();
        push_hex_digits(&mut name, bundle_id as u64, 16);
        name.append(".bundle");
        proof {
            reveal_strlit(".bundle");
            assert(name@ =~= spec_bundle_file_name(bundle_id));
        }
        name
    }

    /// Address of the bundle `bundle_id` under the CDN address `bundle_cdn`.
    pub fn bundle_url(bundle_cdn: &str, bundle_id: i64) -> (url: String)
        ensures
            url@ == spec_bundle_url(bundle_cdn@, bundle_id),
    {
        let mut url = String::from_str(bundle_cdn);
        url.append("/");
        let name = Self::bundle_file_name(bundle_id);
        url.append(name.as_str());
        proof {
            reveal_strlit("/");
            assert(url@ =~= spec_bundle_url(bundle_cdn@, bundle_id));
        }
        url
    }

    /// Value of the HTTP `Range` header that asks for the bytes `from` to `to`
    /// of a bundle, both included, such as `bytes=0-1023`.
    pub fn range_header(from: u32, to: u32) -> (header: String)
        ensures
            header@ == spec_range_header(from, to),
    {
        let mut header = String::new();
        header.append("bytes=");
        push_decimal(&mut header, from as u64);
        header.append("-");
        push_decimal(&mut header, to as u64);
        proof {
            reveal_strlit("bytes=");
            reveal_strlit("-");
            assert(header@ =~= spec_range_header(from, to));
        }
        header
    }

    /// Number of bytes that a download of the bytes `from` to `to` of a bundle,
    /// both included, must bring.
    pub fn expected_length(from: u32, to: u32) -> (len: usize)
        requires
            from <= to,
            to - from < u32::MAX,
        ensures
            len == range_len((from, to)),
    {
        (to - from + 1) as usize
    }

    /// Where the compressed bytes of `chunk` lie in the downloaded part of its
    /// bundle (`bytes_map[chunk.0]`, which starts at byte
    /// `bundles_for_file[chunk.0].0` of the bundle): the first and the last
    /// position, both included.
    ///
    /// # Errors
    ///
    /// [`MissingRange`][ChunkError::MissingRange] where the bundle has no
    /// range, [`MissingBytes`][ChunkError::MissingBytes] where it has no bytes,
    /// and [`OutOfRange`][ChunkError::OutOfRange] where the chunk starts before
    /// the range, its last byte overflows `u32`, or it does not lie inside the
    /// bytes; see [`spec_chunk_bounds`] for the order of the checks.
    pub fn chunk_bounds(
        chunk: Chunk,
        bundles_for_file: &HashMap<i64, (u32, u32)>,
        bytes_map: &HashMap<i64, Vec<u8>>,
    ) -> (res: Result<(usize, usize), ChunkError>)
        ensures
            match res {
                Ok((first, last)) => spec_chunk_bounds(chunk, bundles_for_file@, bytes_map@) == Ok::<
                    (int, int),
                    ChunkError,
                >((first as int, last as int)),
                Err(e) => spec_chunk_bounds(chunk, bundles_for_file@, bytes_map@) == Err::<
                    (int, int),
                    ChunkError,
                >(e),
            },
    {
        let (bundle_id, offset, _uncompressed_size, compressed_size) = chunk;
        let min = match bundles_for_file.get(&bundle_id) {
            Some(range) => range.0,
            None => return Err(ChunkError::MissingRange),
        };
        if offset < min {
            return Err(ChunkError::OutOfRange);
        }
        let from = offset - min;
        let end = match offset.checked_add(compressed_size) {
            Some(end) => end,
            None => return Err(ChunkError::OutOfRange),
        };
        if end == 0 || end - 1 < min {
            return Err(ChunkError::OutOfRange);
        }
        let to = end - 1 - min;
        let bundle_bytes = match bytes_map.get(&bundle_id) {
            Some(bytes) => bytes,
            None => return Err(ChunkError::MissingBytes),
        };
        if to as usize >= bundle_bytes.len() {
            return Err(ChunkError::OutOfRange);
        }
        Ok((from as usize, to as usize))
    }

    /// The decompressed contents of `chunk`: its compressed bytes, cut out of
    /// the downloaded part of its bundle (see
    /// [`chunk_bounds`][Self::chunk_bounds]), decompressed into at most its
    /// uncompressed size. The chunk must lie inside its bundle's bytes and
    /// decompress; [`try_decompress_chunk`][Self::try_decompress_chunk] tests
    /// both.
    pub fn decompress_chunk(
        chunk: Chunk,
        bundles_for_file: &HashMap<i64, (u32, u32)>,
        bytes_map: &HashMap<i64, Vec<u8>>,
    ) -> (part: Vec<u8>)
        requires
            spec_chunk_contents(chunk, bundles_for_file@, bytes_map@) is Ok,
        ensures
            spec_chunk_contents(chunk, bundles_for_file@, bytes_map@) == Ok::<Seq<u8>, ChunkError>(
                part@,
            ),
            part@.len() <= chunk.2,
    {
        let compressed = Self::chunk_bytes(chunk, bundles_for_file, bytes_map);
        match bulk_decompress(compressed, chunk.2 as usize) {
            Ok(part) => part,
            Err(_) => {
                assert(false);
                Vec::new()
            },
        }
    }

    /// The compressed bytes of `chunk`, cut out of the downloaded part of its
    /// bundle.
    fn chunk_bytes<'a>(
        chunk: Chunk,
        bundles_for_file: &HashMap<i64, (u32, u32)>,
        bytes_map: &'a HashMap<i64, Vec<u8>>,
    ) -> (compressed: &'a [u8])
        requires
            spec_chunk_bounds(chunk, bundles_for_file@, bytes_map@) is Ok,
        ensures
            spec_chunk_bounds(chunk, bundles_for_file@, bytes_map@) matches Ok((first, last))
                && compressed@ == bytes_map@[chunk.0]@.subrange(first, last + 1),
    {
        let (first, last) = match Self::chunk_bounds(chunk, bundles_for_file, bytes_map) {
            Ok(bounds) => bounds,
            Err(_) => {
                assert(false);
                (0, 0)
            },
        };
        let bundle_bytes = match bytes_map.get(&chunk.0) {
            Some(bytes) => bytes,
            None => {
                assert(false);
                return &[];
            },
        };
        vstd::slice::slice_subrange(bundle_bytes.as_slice(), first, last + 1)
    }

    /// The decompressed contents of `chunk` as
    /// [`decompress_chunk`][Self::decompress_chunk] gives them, where it can.
    /// The chunk is decompressed once to test that zstd accepts it, and again
    /// by `decompress_chunk`.
    ///
    /// # Errors
    ///
    /// The error of [`chunk_bounds`][Self::chunk_bounds] where the bytes cannot
    /// be found, or [`DecompressFailed`][ChunkError::DecompressFailed] where
    /// zstd fails on them.
    pub fn try_decompress_chunk(
        chunk: Chunk,
        bundles_for_file: &HashMap<i64, (u32, u32)>,
        bytes_map: &HashMap<i64, Vec<u8>>,
    ) -> (res: Result<Vec<u8>, ChunkError>)
        ensures
            match spec_chunk_contents(chunk, bundles_for_file@, bytes_map@) {
                Ok(part) => res matches Ok(out) && out@ == part && part.len() <= chunk.2,
                Err(e) => res == Err::<Vec<u8>, ChunkError>(e),
            },
    {
        Self::chunk_bounds(chunk, bundles_for_file, bytes_map)?;
        let compressed = Self::chunk_bytes(chunk, bundles_for_file, bytes_map);
        match bulk_decompress(compressed, chunk.2 as usize) {
            Ok(_) => Ok(Self::decompress_chunk(chunk, bundles_for_file, bytes_map)),
            Err(_) => Err(ChunkError::DecompressFailed),
        }
    }

    /// The contents of `file`, assembled from the downloaded parts of its
    /// bundles: each chunk is cut out of its bundle's bytes and decompressed
    /// into at most its uncompressed size (see
    /// [`decompress_chunk`][Self::decompress_chunk]), and the results follow
    /// each other in the order of the chunks. A file without chunks is empty.
    /// Every chunk must lie inside its bundle's bytes and decompress;
    /// [`try_decompress_file`][Self::try_decompress_file] tests that.
    pub fn decompress_file(
        file: &File,
        bytes_map: &HashMap<i64, Vec<u8>>,
        bundles_for_file: &HashMap<i64, (u32, u32)>,
    ) -> (contents: Vec<u8>)
        requires
            spec_file_contents(file.chunks@, bundles_for_file@, bytes_map@) is Ok,
        ensures
            spec_file_contents(file.chunks@, bundles_for_file@, bytes_map@) == Ok::<
                Seq<u8>,
                ChunkError,
            >(contents@),
            forall|j: int|
                0 <= j < file.chunks@.len() ==> (spec_chunk_contents(
                    #[trigger] file.chunks@[j],
                    bundles_for_file@,
                    bytes_map@,
                ) matches Ok(part) && part.len() <= file.chunks@[j].2),
            contents@.len() <= total_uncompressed(file.chunks@),
    {
        proof {
            lemma_file_contents_ok_chunks(file.chunks@, bundles_for_file@, bytes_map@);
        }
        let chunks = &file.chunks;
        let mut contents: Vec<u8> = Vec::new();
        let mut i: usize = 0;
        while i < chunks.len()
            invariant
                i <= chunks@.len(),
                chunks == file.chunks,
                forall|j: int|
                    0 <= j < chunks@.len() ==> (#[trigger] spec_chunk_contents(
                        chunks@[j],
                        bundles_for_file@,
                        bytes_map@,
                    )) is Ok,
                spec_file_contents(chunks@.take(i as int), bundles_for_file@, bytes_map@) == Ok::<
                    Seq<u8>,
                    ChunkError,
                >(contents@),
                forall|j: int|
                    0 <= j < i ==> (spec_chunk_contents(
                        #[trigger] chunks@[j],
                        bundles_for_file@,
                        bytes_map@,
                    ) matches Ok(part) && part.len() <= chunks@[j].2),
                contents@.len() <= total_uncompressed(chunks@.take(i as int)),
            decreases chunks@.len() - i,
        {
            let chunk = chunks[i];
            proof {
                assert(chunks@.take(i + 1).drop_last() =~= chunks@.take(i as int));
                assert(chunks@.take(i + 1).last() == chunk);
                assert(spec_chunk_contents(chunks@[i as int], bundles_for_file@, bytes_map@) is Ok);
            }
            let mut part = Self::decompress_chunk(chunk, bundles_for_file, bytes_map);
            contents.append(&mut part);
            i = i + 1;
        }
        assert(chunks@.take(chunks@.len() as int) =~= chunks@);
        contents
    }

    /// The contents of `file` as [`decompress_file`][Self::decompress_file]
    /// gives them, where it can. Every chunk is decompressed once to test that
    /// zstd accepts it, and again by `decompress_file`.
    ///
    /// # Errors
    ///
    /// The error of the first chunk that fails (see
    /// [`try_decompress_chunk`][Self::try_decompress_chunk]).
    pub fn try_decompress_file(
        file: &File,
        bytes_map: &HashMap<i64, Vec<u8>>,
        bundles_for_file: &HashMap<i64, (u32, u32)>,
    ) -> (res: Result<Vec<u8>, ChunkError>)
        ensures
            match spec_file_contents(file.chunks@, bundles_for_file@, bytes_map@) {
                Ok(contents) => res matches Ok(out) && out@ == contents,
                Err(e) => res == Err::<Vec<u8>, ChunkError>(e),
            },
    {
        let chunks = &file.chunks;
        let mut i: usize = 0;
        while i < chunks.len()
            invariant
                i <= chunks@.len(),
                chunks == file.chunks,
                spec_file_contents(chunks@.take(i as int), bundles_for_file@, bytes_map@) is Ok,
            decreases chunks@.len() - i,
        {
            let chunk = chunks[i];
            proof {
                assert(chunks@.take(i + 1).drop_last() =~= chunks@.take(i as int));
                assert(chunks@.take(i + 1).last() == chunk);
            }
            let tested = match Self::chunk_bounds(chunk, bundles_for_file, bytes_map) {
                Err(e) => Err(e),
                Ok(_) => {
                    let compressed = Self::chunk_bytes(chunk, bundles_for_file, bytes_map);
                    match bulk_decompress(compressed, chunk.2 as usize) {
                        Ok(_) => Ok(()),
                        Err(_) => Err(ChunkError::DecompressFailed),
                    }
                },
            };
            if let Err(e) = tested {
                proof {
                    lemma_file_contents_error_persists(
                        chunks@,
                        i + 1,
                        bundles_for_file@,
                        bytes_map@,
                    );
                }
                return Err(e);
            }
            i = i + 1;
        }
        assert(chunks@.take(chunks@.len() as int) =~= chunks@);
        Ok(Self::decompress_file(file, bytes_map, bundles_for_file))
    }
}

/// Where the whole file succeeds, so does every one of its chunks.
proof fn lemma_file_contents_ok_chunks(
    chunks: Seq<Chunk>,
    ranges: crate::parser::bundles::BundleRanges,
    bytes: Map<i64, Vec<u8>>,
)
    requires
        spec_file_contents(chunks, ranges, bytes) is Ok,
    ensures
        forall|j: int|
            0 <= j < chunks.len() ==> (#[trigger] spec_chunk_contents(chunks[j], ranges, bytes)) is Ok,
    decreases chunks.len(),
{
    if chunks.len() > 0 {
        let prefix = chunks.drop_last();
        lemma_file_contents_ok_chunks(prefix, ranges, bytes);
        assert forall|j: int| 0 <= j < chunks.len() implies (#[trigger] spec_chunk_contents(
            chunks[j],
            ranges,
            bytes,
        )) is Ok by {
            if j < chunks.len() - 1 {
                assert(prefix[j] == chunks[j]);
            }
        }
    }
}

/// Once a prefix of the chunks fails, the whole file fails with the same error.
proof fn lemma_file_contents_error_persists(
    chunks: Seq<Chunk>,
    n: int,
    ranges: crate::parser::bundles::BundleRanges,
    bytes: Map<i64, Vec<u8>>,
)
    requires
        0 <= n <= chunks.len(),
        spec_file_contents(chunks.take(n), ranges, bytes) is Err,
    ensures
        spec_file_contents(chunks, ranges, bytes) == spec_file_contents(chunks.take(n), ranges, bytes),
    decreases chunks.len() - n,
{
    if n < chunks.len() {
        assert(chunks.take(n + 1).drop_last() =~= chunks.take(n));
        lemma_file_contents_error_persists(chunks, n + 1, ranges, bytes);
    } else {
        assert(chunks.take(n) =~= chunks);
    }
}

/// Parsing a manifest reads only its header and its compressed body: two
/// files with the same first `HEADER_SIZE` bytes, of which both hold the whole
/// body or neither does, and with the same body where they do, parse alike.
pub proof fn lemma_manifest_reads_only_header_and_body(b1: Seq<u8>, b2: Seq<u8>)
    requires
        b1.len() >= crate::parser::header::HEADER_SIZE,
        b2.len() >= crate::parser::header::HEADER_SIZE,
        b1.subrange(0, crate::parser::header::HEADER_SIZE as int) == b2.subrange(
            0,
            crate::parser::header::HEADER_SIZE as int,
        ),
        spec_parse_header(b1) matches Ok(h) ==> (body_in_file(h, b1.len()) <==> body_in_file(
            h,
            b2.len(),
        )) && (body_in_file(h, b1.len()) ==> compressed_body(h, b1) == compressed_body(h, b2)),
    ensures
        spec_manifest_from_bytes(b1) == spec_manifest_from_bytes(b2),
{
    assert forall|i: int| 0 <= i < 28 implies b1[i] == b2[i] by {
        assert(b1.subrange(0, 28)[i] == b2.subrange(0, 28)[i]);
    }
    assert(spec_parse_header(b1) == spec_parse_header(b2));
}

/// A whole manifest file reads back: a file made of the header `h`, a gap of
/// any bytes up to `h.offset`, then a compressed body of `h.compressed_size`
/// bytes, parses to `h` and to the body decompressed with capacity exactly
/// `h.uncompressed_size`, or fails exactly where zstd fails on the body.
pub proof fn lemma_manifest_reads_back(h: Header, gap: Seq<u8>, body: Seq<u8>)
    requires
        h.magic == crate::parser::header::RMAN_MAGIC,
        h.major == crate::parser::header::SUPPORTED_MAJOR,
        h.offset == crate::parser::header::HEADER_SIZE + gap.len(),
        h.compressed_size == body.len(),
    ensures
        spec_manifest_from_bytes(crate::parser::header::header_bytes(h) + gap + body) == match zstd_bulk_decompress(
            body,
            h.uncompressed_size as usize,
        ) {
            Some(out) => Ok::<(Header, Seq<u8>), ManifestError>((h, out)),
            None => Err::<(Header, Seq<u8>), ManifestError>(ManifestError::ZstdDecompressError),
        },
{
    let hb = crate::parser::header::header_bytes(h);
    let bytes = hb + gap + body;
    crate::parser::header::lemma_header_reads_back(h, gap + body);
    assert(hb + (gap + body) =~= bytes);
    assert(body_in_file(h, bytes.len()));
    if h.compressed_size > 0 {
        assert(bytes.subrange(h.offset as int, h.offset + h.compressed_size) =~= body);
    } else {
        assert(body =~= Seq::<u8>::empty());
    }
}

/// A file that ends before the non-empty compressed body that its header
/// announces fails with `IoError`.
pub proof fn lemma_truncated_manifest_fails(h: Header, rest: Seq<u8>)
    requires
        h.magic == crate::parser::header::RMAN_MAGIC,
        h.major == crate::parser::header::SUPPORTED_MAJOR,
        h.compressed_size > 0,
        crate::parser::header::HEADER_SIZE + rest.len() < h.offset + h.compressed_size,
    ensures
        spec_manifest_from_bytes(crate::parser::header::header_bytes(h) + rest) == Err::<
            (Header, Seq<u8>),
            ManifestError,
        >(ManifestError::IoError),
{
    crate::parser::header::lemma_header_reads_back(h, rest);
}

/// An empty compressed body is read as empty wherever the header says it
/// starts, even past the end of the file: the result is the empty input
/// decompressed with capacity `h.uncompressed_size`.
pub proof fn lemma_empty_body_reads_anywhere(h: Header, rest: Seq<u8>)
    requires
        h.magic == crate::parser::header::RMAN_MAGIC,
        h.major == crate::parser::header::SUPPORTED_MAJOR,
        h.compressed_size == 0,
    ensures
        spec_manifest_from_bytes(crate::parser::header::header_bytes(h) + rest) == match zstd_bulk_decompress(
            Seq::empty(),
            h.uncompressed_size as usize,
        ) {
            Some(out) => Ok::<(Header, Seq<u8>), ManifestError>((h, out)),
            None => Err::<(Header, Seq<u8>), ManifestError>(ManifestError::ZstdDecompressError),
        },
{
    crate::parser::header::lemma_header_reads_back(h, rest);
}

} // verus!
