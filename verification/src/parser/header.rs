use vstd::prelude::*;

use crate::error::{ManifestError, Result};

verus! {

/// Length in bytes of the fixed header at the start of every manifest.
pub const HEADER_SIZE: usize = 28;

/// `RMAN` read as a little-endian `u32`.
pub const RMAN_MAGIC: u32 = 0x4E41_4D52;

/// The only major version of the format that this crate reads.
pub const SUPPORTED_MAJOR: u8 = 2;

/// Fixed-size header at the start of a manifest file.
#[derive(Debug, Default, Clone, Copy, PartialEq, Eq)]
pub struct Header {
    /// Magic bytes, `RMAN` read as a little-endian `u32`.
    pub magic: u32,
    /// Major version of the format.
    pub major: u8,
    /// Minor version of the format.
    pub minor: u8,
    /// Flags of the manifest.
    pub flags: u16,
    /// Offset from the start of the file at which the compressed body begins.
    pub offset: u32,
    /// Length of the compressed body in bytes.
    pub compressed_size: u32,
    /// Id of the manifest.
    pub manifest_id: u64,
    /// Length of the body once decompressed.
    pub uncompressed_size: u32,
}

/// Little-endian value of the two bytes of `s` from `i` on.
pub open spec fn le_u16(s: Seq<u8>, i: int) -> int {
    s[i] + s[i + 1] * 256
}

/// Little-endian value of the four bytes of `s` from `i` on.
pub open spec fn le_u32(s: Seq<u8>, i: int) -> int {
    le_u16(s, i) + le_u16(s, i + 2) * 65536
}

/// Little-endian value of the eight bytes of `s` from `i` on.
pub open spec fn le_u64(s: Seq<u8>, i: int) -> int {
    le_u32(s, i) + le_u32(s, i + 4) * 4294967296
}

/// The header whose fields are the little-endian fields at the start of `s`.
pub open spec fn header_fields(s: Seq<u8>) -> Header {
    Header {
        magic: le_u32(s, 0) as u32,
        major: s[4],
        minor: s[5],
        flags: le_u16(s, 6) as u16,
        offset: le_u32(s, 8) as u32,
        compressed_size: le_u32(s, 12) as u32,
        manifest_id: le_u64(s, 16) as u64,
        uncompressed_size: le_u32(s, 24) as u32,
    }
}

/// What reading a header from the bytes `s` gives: the fields are read in
/// order, and the first check that fails decides the error (too few bytes for
/// the magic, wrong magic, too few bytes for the major version, unsupported
/// major version, too few bytes for the rest).
pub open spec fn spec_parse_header(s: Seq<u8>) -> Result<Header> {
    if s.len() < 4 {
        Err(ManifestError::IoError)
    } else if le_u32(s, 0) != RMAN_MAGIC {
        Err(ManifestError::InvalidMagicBytes(le_u32(s, 0) as u32))
    } else if s.len() < 5 {
        Err(ManifestError::IoError)
    } else if s[4] != SUPPORTED_MAJOR {
        Err(ManifestError::InvalidMajor(s[4]))
    } else if s.len() < HEADER_SIZE {
        Err(ManifestError::IoError)
    } else {
        Ok(header_fields(s))
    }
}

fn read_u16_le(s: &[u8], i: usize) -> (v: u16)
    requires
        i + 2 <= s@.len(),
    ensures
        v == le_u16(s@, i as int),
{
    s[i] as u16 + (s[i + 1] as u16) * 256
}

fn read_u32_le(s: &[u8], i: usize) -> (v: u32)
    requires
        i + 4 <= s@.len(),
    ensures
        v == le_u32(s@, i as int),
{
    // The slice's length, a `usize`, bounds `i + 2` below.
    let _len: usize = s.len();
    let lo = read_u16_le(s, i);
    let hi = read_u16_le(s, i + 2);
    lo as u32 + (hi as u32) * 65536
}

fn read_u64_le(s: &[u8], i: usize) -> (v: u64)
    requires
        i + 8 <= s@.len(),
    ensures
        v == le_u64(s@, i as int),
{
    // The slice's length, a `usize`, bounds `i + 4` below.
    let _len: usize = s.len();
    let lo = read_u32_le(s, i);
    let hi = read_u32_le(s, i + 4);
    lo as u64 + (hi as u64) * 4294967296
}

impl Header {
    /// Reads a header from the start of `bytes`.
    ///
    /// # Errors
    ///
    /// [`IoError`][ManifestError::IoError] when `bytes` ends before a field that
    /// is still to be read, [`InvalidMagicBytes`][ManifestError::InvalidMagicBytes]
    /// when the file does not start with `RMAN`, and
    /// [`InvalidMajor`][ManifestError::InvalidMajor] when the major version is
    /// not [`SUPPORTED_MAJOR`].
    pub fn from_bytes(bytes: &[u8]) -> (res: Result<Header>)
        ensures
            res == spec_parse_header(bytes@),
    {
        if bytes.len() < 4 {
            return Err(ManifestError::IoError);
        }
        let magic = read_u32_le(bytes, 0);
        if magic != RMAN_MAGIC {
            return Err(ManifestError::InvalidMagicBytes(magic));
        }
        if bytes.len() < 5 {
            return Err(ManifestError::IoError);
        }
        let major = bytes[4];
        if major != SUPPORTED_MAJOR {
            return Err(ManifestError::InvalidMajor(major));
        }
        if bytes.len() < HEADER_SIZE {
            return Err(ManifestError::IoError);
        }
        Ok(Header {
            magic,
            major,
            minor: bytes[5],
            flags: read_u16_le(bytes, 6),
            offset: read_u32_le(bytes, 8),
            compressed_size: read_u32_le(bytes, 12),
            manifest_id: read_u64_le(bytes, 16),
            uncompressed_size: read_u32_le(bytes, 24),
        })
    }
}

/// The two bytes of `v` (below `2^16`), least significant first.
pub open spec fn u16_le_bytes(v: int) -> Seq<u8> {
    seq![(v % 256) as u8, (v / 256) as u8]
}

/// The four bytes of `v` (below `2^32`), least significant first.
pub open spec fn u32_le_bytes(v: int) -> Seq<u8> {
    u16_le_bytes(v % 65536) + u16_le_bytes(v / 65536)
}

/// The eight bytes of `v` (below `2^64`), least significant first.
pub open spec fn u64_le_bytes(v: int) -> Seq<u8> {
    u32_le_bytes(v % 0x1_0000_0000) + u32_le_bytes(v / 0x1_0000_0000)
}

/// The 28 bytes of a file that starts with the header `h`: magic, major,
/// minor, flags, offset, compressed size, manifest id and uncompressed size,
/// each little endian.
pub open spec fn header_bytes(h: Header) -> Seq<u8> {
    u32_le_bytes(h.magic as int) + seq![h.major, h.minor] + u16_le_bytes(h.flags as int)
        + u32_le_bytes(h.offset as int) + u32_le_bytes(h.compressed_size as int) + u64_le_bytes(
        h.manifest_id as int,
    ) + u32_le_bytes(h.uncompressed_size as int)
}

proof fn lemma_u16_bytes(s: Seq<u8>, i: int, v: int)
    requires
        0 <= v < 65536,
        0 <= i,
        i + 2 <= s.len(),
        s.subrange(i, i + 2) == u16_le_bytes(v),
    ensures
        le_u16(s, i) == v,
{
    assert(s[i] == s.subrange(i, i + 2)[0]);
    assert(s[i + 1] == s.subrange(i, i + 2)[1]);
    assert(v / 256 < 256);
}

proof fn lemma_u32_bytes(s: Seq<u8>, i: int, v: int)
    requires
        0 <= v < 0x1_0000_0000,
        0 <= i,
        i + 4 <= s.len(),
        s.subrange(i, i + 4) == u32_le_bytes(v),
    ensures
        le_u32(s, i) == v,
{
    assert(s.subrange(i, i + 2) =~= s.subrange(i, i + 4).subrange(0, 2));
    assert(s.subrange(i + 2, i + 4) =~= s.subrange(i, i + 4).subrange(2, 4));
    assert(u32_le_bytes(v).subrange(0, 2) =~= u16_le_bytes(v % 65536));
    assert(u32_le_bytes(v).subrange(2, 4) =~= u16_le_bytes(v / 65536));
    lemma_u16_bytes(s, i, v % 65536);
    lemma_u16_bytes(s, i + 2, v / 65536);
}

proof fn lemma_u64_bytes(s: Seq<u8>, i: int, v: int)
    requires
        0 <= v < 0x1_0000_0000_0000_0000,
        0 <= i,
        i + 8 <= s.len(),
        s.subrange(i, i + 8) == u64_le_bytes(v),
    ensures
        le_u64(s, i) == v,
{
    assert(s.subrange(i, i + 4) =~= s.subrange(i, i + 8).subrange(0, 4));
    assert(s.subrange(i + 4, i + 8) =~= s.subrange(i, i + 8).subrange(4, 8));
    assert(u64_le_bytes(v).subrange(0, 4) =~= u32_le_bytes(v % 0x1_0000_0000));
    assert(u64_le_bytes(v).subrange(4, 8) =~= u32_le_bytes(v / 0x1_0000_0000));
    lemma_u32_bytes(s, i, v % 0x1_0000_0000);
    lemma_u32_bytes(s, i + 4, v / 0x1_0000_0000);
}

/// Reading back a written header gives it back: the file whose first 28
/// bytes are `h`'s fields, little endian, followed by anything, parses to
/// `h`, where `h` has the `RMAN` magic and the supported major version. The
/// magic's bytes are the characters `RMAN`.
pub proof fn lemma_header_reads_back(h: Header, rest: Seq<u8>)
    requires
        h.magic == RMAN_MAGIC,
        h.major == SUPPORTED_MAJOR,
    ensures
        header_bytes(h).len() == HEADER_SIZE,
        header_bytes(h).subrange(0, 4) == seq![82u8, 77u8, 65u8, 78u8],
        spec_parse_header(header_bytes(h) + rest) == Ok::<Header, ManifestError>(h),
{
    let b = header_bytes(h);
    let s = b + rest;
    assert(b.len() == 28);
    assert(s.subrange(0, 4) =~= u32_le_bytes(h.magic as int));
    assert(s[4] == h.major);
    assert(s[5] == h.minor);
    assert(s.subrange(6, 8) =~= u16_le_bytes(h.flags as int));
    assert(s.subrange(8, 12) =~= u32_le_bytes(h.offset as int));
    assert(s.subrange(12, 16) =~= u32_le_bytes(h.compressed_size as int));
    assert(s.subrange(16, 24) =~= u64_le_bytes(h.manifest_id as int));
    assert(s.subrange(24, 28) =~= u32_le_bytes(h.uncompressed_size as int));
    lemma_u32_bytes(s, 0, h.magic as int);
    lemma_u16_bytes(s, 6, h.flags as int);
    lemma_u32_bytes(s, 8, h.offset as int);
    lemma_u32_bytes(s, 12, h.compressed_size as int);
    lemma_u64_bytes(s, 16, h.manifest_id as int);
    lemma_u32_bytes(s, 24, h.uncompressed_size as int);
    assert(header_fields(s) == h);
    assert(b.subrange(0, 4) =~= u32_le_bytes(RMAN_MAGIC as int));
    assert(u32_le_bytes(RMAN_MAGIC as int) =~= seq![82u8, 77u8, 65u8, 78u8]);
}

proof fn lemma_split(a: int, b: int, m: int)
    requires
        0 <= a < m,
        0 <= b,
        m > 0,
    ensures
        (a + b * m) % m == a,
        (a + b * m) / m == b,
{
    assert((a + b * m) % m == a && (a + b * m) / m == b) by (nonlinear_arith)
        requires
            0 <= a < m,
            0 <= b,
            m > 0,
    ;
}

proof fn lemma_u16_reads(s: Seq<u8>, i: int)
    requires
        0 <= i,
        i + 2 <= s.len(),
    ensures
        0 <= le_u16(s, i) < 65536,
        u16_le_bytes(le_u16(s, i)) == s.subrange(i, i + 2),
{
    lemma_split(s[i] as int, s[i + 1] as int, 256);
    assert(u16_le_bytes(le_u16(s, i)) =~= s.subrange(i, i + 2));
}

proof fn lemma_u32_reads(s: Seq<u8>, i: int)
    requires
        0 <= i,
        i + 4 <= s.len(),
    ensures
        0 <= le_u32(s, i) < 0x1_0000_0000,
        u32_le_bytes(le_u32(s, i)) == s.subrange(i, i + 4),
{
    lemma_u16_reads(s, i);
    lemma_u16_reads(s, i + 2);
    lemma_split(le_u16(s, i), le_u16(s, i + 2), 65536);
    assert(u32_le_bytes(le_u32(s, i)) =~= s.subrange(i, i + 4));
}

proof fn lemma_u64_reads(s: Seq<u8>, i: int)
    requires
        0 <= i,
        i + 8 <= s.len(),
    ensures
        0 <= le_u64(s, i) < 0x1_0000_0000_0000_0000,
        u64_le_bytes(le_u64(s, i)) == s.subrange(i, i + 8),
{
    lemma_u32_reads(s, i);
    lemma_u32_reads(s, i + 4);
    lemma_split(le_u32(s, i), le_u32(s, i + 4), 0x1_0000_0000);
    assert(u64_le_bytes(le_u64(s, i)) =~= s.subrange(i, i + 8));
}

/// A header is read only from bytes that are exactly some valid header's
/// written form: where parsing succeeds, the header has the `RMAN` magic and
/// the supported major version, and writing it back gives the file's first
/// 28 bytes.
pub proof fn lemma_parsed_header_is_its_bytes(s: Seq<u8>)
    ensures
        spec_parse_header(s) matches Ok(h) ==> {
            &&& h.magic == RMAN_MAGIC
            &&& h.major == SUPPORTED_MAJOR
            &&& s.len() >= HEADER_SIZE
            &&& header_bytes(h) == s.subrange(0, HEADER_SIZE as int)
        },
{
    if spec_parse_header(s) is Ok {
        let h = header_fields(s);
        lemma_u32_reads(s, 0);
        lemma_u16_reads(s, 6);
        lemma_u32_reads(s, 8);
        lemma_u32_reads(s, 12);
        lemma_u64_reads(s, 16);
        lemma_u32_reads(s, 24);
        assert(header_bytes(h) =~= s.subrange(0, 28));
    }
}

/// Which error a header that cannot be read gives, in terms of its bytes:
/// fewer than 4 bytes, or `RMAN` then nothing, or `RMAN` and major version 2
/// then fewer than 28 bytes in all, give `IoError`; 4 bytes other than `RMAN`
/// give `InvalidMagicBytes` with the value whose little-endian bytes they
/// are; `RMAN` followed by a major version other than 2 gives `InvalidMajor`
/// with that version.
pub proof fn lemma_header_errors(s: Seq<u8>)
    ensures
        s.len() < 4 ==> spec_parse_header(s) == Err::<Header, ManifestError>(ManifestError::IoError),
        s.len() >= 4 && s.subrange(0, 4) != seq![82u8, 77u8, 65u8, 78u8] ==> (spec_parse_header(
            s,
        ) matches Err(ManifestError::InvalidMagicBytes(m)) && u32_le_bytes(m as int) == s.subrange(
            0,
            4,
        )),
        s.len() == 4 && s.subrange(0, 4) == seq![82u8, 77u8, 65u8, 78u8] ==> spec_parse_header(s)
            == Err::<Header, ManifestError>(ManifestError::IoError),
        s.len() >= 5 && s.subrange(0, 4) == seq![82u8, 77u8, 65u8, 78u8] && s[4] != 2
            ==> spec_parse_header(s) == Err::<Header, ManifestError>(ManifestError::InvalidMajor(s[4])),
        s.len() >= 5 && s.len() < 28 && s.subrange(0, 4) == seq![82u8, 77u8, 65u8, 78u8] && s[4] == 2
            ==> spec_parse_header(s) == Err::<Header, ManifestError>(ManifestError::IoError),
{
    if s.len() >= 4 {
        lemma_u32_reads(s, 0);
        assert(u32_le_bytes(RMAN_MAGIC as int) =~= seq![82u8, 77u8, 65u8, 78u8]);
        if s.subrange(0, 4) == seq![82u8, 77u8, 65u8, 78u8] {
            lemma_u32_bytes(s, 0, RMAN_MAGIC as int);
        }
    }
}

} // verus!
