//! What downloading a file plans: for each bundle that holds chunks of the
//! file, the smallest byte range of the bundle that covers all of them.
use vstd::prelude::*;

use crate::file::{chunk_in_u32, chunk_last_byte, Chunk, File};
use crate::fmt::{
    all_dec_digits, all_hex_digits, dec_digit_value, dec_digits, dec_value, hex_digits, hex_value,
    lemma_dec_digits_read_back, lemma_hex_digits_read_back, lemma_pow16_16,
};

verus! {

/// Byte ranges, first and last byte inclusive, keyed by bundle id.
pub type BundleRanges = Map<i64, (u32, u32)>;

/// `m` after taking in the chunk `c`: the range of `c`'s bundle grows to cover
/// `c`, or starts as the bytes of `c` when the bundle had no range yet.
pub open spec fn merge_chunk(m: BundleRanges, c: Chunk) -> BundleRanges {
    let from = c.1;
    let to = chunk_last_byte(c) as u32;
    if m.contains_key(c.0) {
        let lo = m[c.0].0;
        let hi = m[c.0].1;
        m.insert(
            c.0,
            (if from < lo {
                from
            } else {
                lo
            }, if to > hi {
                to
            } else {
                hi
            }),
        )
    } else {
        m.insert(c.0, (from, to))
    }
}

/// The ranges for the chunks `chunks`, taken in order.
pub open spec fn spec_bundle_ranges(chunks: Seq<Chunk>) -> BundleRanges
    decreases chunks.len(),
{
    if chunks.len() == 0 {
        Map::empty()
    } else {
        merge_chunk(spec_bundle_ranges(chunks.drop_last()), chunks.last())
    }
}

/// The plan for all of `files`: the ranges of each file keyed by file id; where
/// two files share an id, the later one's ranges stand.
pub open spec fn spec_prepare_bundles(files: Seq<File>) -> Map<i64, BundleRanges>
    decreases files.len(),
{
    if files.len() == 0 {
        Map::empty()
    } else {
        spec_prepare_bundles(files.drop_last()).insert(
            files.last().id,
            spec_bundle_ranges(files.last().chunks@),
        )
    }
}

/// Every chunk of every file in `files` can have its last byte computed in `u32`.
pub open spec fn files_in_u32(files: Seq<File>) -> bool {
    forall|i: int, j: int|
        0 <= i < files.len() && 0 <= j < files[i].chunks@.len() ==> #[trigger] chunk_in_u32(
            files[i].chunks@[j],
        )
}

/// Every chunk of `chunks` can have its last byte computed in `u32`.
pub open spec fn chunks_in_u32(chunks: Seq<Chunk>) -> bool {
    forall|j: int| 0 <= j < chunks.len() ==> #[trigger] chunk_in_u32(chunks[j])
}

/// `chunks` has a chunk of the bundle `b`.
pub open spec fn has_chunk_of(chunks: Seq<Chunk>, b: i64) -> bool {
    exists|j: int| 0 <= j < chunks.len() && (#[trigger] chunks[j]).0 == b
}

/// The range of bundle `b` in `r` starts at the first byte of some chunk of
/// `b` and ends at the last byte of some chunk of `b`.
pub open spec fn range_is_attained(chunks: Seq<Chunk>, r: BundleRanges, b: i64) -> bool {
    &&& exists|j: int| 0 <= j < chunks.len() && (#[trigger] chunks[j]).0 == b && chunks[j].1 == r[b].0
    &&& exists|j: int|
        0 <= j < chunks.len() && (#[trigger] chunks[j]).0 == b && chunk_last_byte(chunks[j])
            == r[b].1
}

/// The range of every chunk's bundle covers the chunk.
pub open spec fn ranges_cover(chunks: Seq<Chunk>, r: BundleRanges) -> bool {
    forall|j: int|
        0 <= j < chunks.len() ==> {
            let c = #[trigger] chunks[j];
            &&& r.contains_key(c.0)
            &&& r[c.0].0 <= c.1
            &&& chunk_last_byte(c) <= r[c.0].1
        }
}

/// The ranges of a file hold one range for each bundle that holds some of
/// its chunks and no other; each range covers every chunk of its bundle, and
/// starts and ends where some chunk of the bundle does, so it is the
/// smallest range that covers them all.
pub proof fn lemma_bundle_ranges_are_tight(chunks: Seq<Chunk>)
    requires
        chunks_in_u32(chunks),
    ensures
        forall|b: i64| #[trigger]
            spec_bundle_ranges(chunks).contains_key(b) <==> has_chunk_of(chunks, b),
        ranges_cover(chunks, spec_bundle_ranges(chunks)),
        forall|b: i64| #[trigger]
            spec_bundle_ranges(chunks).contains_key(b) ==> range_is_attained(
                chunks,
                spec_bundle_ranges(chunks),
                b,
            ),
    decreases chunks.len(),
{
    if chunks.len() > 0 {
        let prefix = chunks.drop_last();
        let c = chunks.last();
        let n = chunks.len() - 1;
        assert forall|j: int| 0 <= j < prefix.len() implies #[trigger] chunk_in_u32(prefix[j]) by {
            assert(prefix[j] == chunks[j]);
        }
        lemma_bundle_ranges_are_tight(prefix);
        let r0 = spec_bundle_ranges(prefix);
        let r = spec_bundle_ranges(chunks);
        assert(chunk_in_u32(chunks[n]));
        assert forall|b: i64| #[trigger] r.contains_key(b) <==> has_chunk_of(chunks, b) by {
            if r.contains_key(b) && b != c.0 {
                assert(r0.contains_key(b));
                let j = choose|j: int| 0 <= j < prefix.len() && (#[trigger] prefix[j]).0 == b;
                assert(chunks[j] == prefix[j]);
            }
            if has_chunk_of(chunks, b) && b != c.0 {
                let j = choose|j: int| 0 <= j < chunks.len() && (#[trigger] chunks[j]).0 == b;
                assert(j < n);
                assert(prefix[j] == chunks[j]);
                assert(has_chunk_of(prefix, b));
            }
            if b == c.0 {
                assert(chunks[n].0 == b);
            }
        }
        assert forall|j: int| 0 <= j < chunks.len() implies {
            let d = #[trigger] chunks[j];
            &&& r.contains_key(d.0)
            &&& r[d.0].0 <= d.1
            &&& chunk_last_byte(d) <= r[d.0].1
        } by {
            if j < n {
                assert(prefix[j] == chunks[j]);
            }
        }
        assert forall|b: i64| #[trigger] r.contains_key(b) implies range_is_attained(chunks, r, b) by {
            if b != c.0 {
                assert(r0.contains_key(b));
                assert(range_is_attained(prefix, r0, b));
                let j1 = choose|j: int|
                    0 <= j < prefix.len() && (#[trigger] prefix[j]).0 == b && prefix[j].1 == r0[b].0;
                let j2 = choose|j: int|
                    0 <= j < prefix.len() && (#[trigger] prefix[j]).0 == b && chunk_last_byte(
                        prefix[j],
                    ) == r0[b].1;
                assert(chunks[j1] == prefix[j1]);
                assert(chunks[j2] == prefix[j2]);
            } else if !r0.contains_key(b) {
                assert(chunks[n] == c);
            } else {
                assert(range_is_attained(prefix, r0, b));
                let j1 = choose|j: int|
                    0 <= j < prefix.len() && (#[trigger] prefix[j]).0 == b && prefix[j].1 == r0[b].0;
                let j2 = choose|j: int|
                    0 <= j < prefix.len() && (#[trigger] prefix[j]).0 == b && chunk_last_byte(
                        prefix[j],
                    ) == r0[b].1;
                assert(chunks[j1] == prefix[j1]);
                assert(chunks[j2] == prefix[j2]);
                assert(chunks[n] == c);
            }
        }
    }
}

/// Name of the bundle `bundle_id` on the CDN: the 16 upper-case hexadecimal
/// digits of the id's 64 bits, then `.bundle`.
pub open spec fn spec_bundle_file_name(bundle_id: i64) -> Seq<char> {
    hex_digits(bundle_id as u64 as nat, 16) + seq!['.', 'b', 'u', 'n', 'd', 'l', 'e']
}

/// Address of the bundle `bundle_id` under the CDN address `cdn`.
pub open spec fn spec_bundle_url(cdn: Seq<char>, bundle_id: i64) -> Seq<char> {
    cdn + seq!['/'] + spec_bundle_file_name(bundle_id)
}

/// Value of the HTTP `Range` header that asks for the bytes `from` to `to`,
/// both included.
pub open spec fn spec_range_header(from: u32, to: u32) -> Seq<char> {
    seq!['b', 'y', 't', 'e', 's', '='] + dec_digits(from as nat) + seq!['-'] + dec_digits(
        to as nat,
    )
}

/// Number of bytes in the range from `from` to `to`, both included.
pub open spec fn range_len(range: (u32, u32)) -> int {
    range.1 - range.0 + 1
}

/// Distinct bundles have distinct names on the CDN.
pub proof fn lemma_bundle_file_names_differ(a: i64, b: i64)
    requires
        a != b,
    ensures
        spec_bundle_file_name(a) != spec_bundle_file_name(b),
{
    let va = a as u64;
    let vb = b as u64;
    assert(va != vb) by (bit_vector)
        requires
            a != b,
            va == a as u64,
            vb == b as u64,
    ;
    if spec_bundle_file_name(a) == spec_bundle_file_name(b) {
        let ha = hex_digits(va as nat, 16);
        let hb = hex_digits(vb as nat, 16);
        let suffix = seq!['.', 'b', 'u', 'n', 'd', 'l', 'e'];
        crate::fmt::lemma_hex_digits_len(va as nat, 16);
        crate::fmt::lemma_hex_digits_len(vb as nat, 16);
        assert((ha + suffix).subrange(0, 16) =~= ha);
        assert((hb + suffix).subrange(0, 16) =~= hb);
        crate::fmt::lemma_pow16_16();
        crate::fmt::lemma_hex_digits_injective(va as nat, vb as nat, 16);
    }
}

/// Every planned range has a length that can be counted in `u32` (at most
/// `u32::MAX`, and not below 0), and a bundle with at least one chunk of
/// non-zero compressed size has a non-empty range (what the expected length
/// of a download needs: `from <= to`).
pub proof fn lemma_planned_ranges_are_downloadable(chunks: Seq<Chunk>)
    requires
        chunks_in_u32(chunks),
    ensures
        forall|b: i64| #[trigger]
            spec_bundle_ranges(chunks).contains_key(b) ==> {
                let r = spec_bundle_ranges(chunks)[b];
                &&& r.0 <= r.1 + 1
                &&& r.1 - r.0 < u32::MAX
            },
        forall|j: int|
            0 <= j < chunks.len() && 1 <= (#[trigger] chunks[j]).3 ==> spec_bundle_ranges(
                chunks,
            )[chunks[j].0].0 <= spec_bundle_ranges(chunks)[chunks[j].0].1,
{
    lemma_bundle_ranges_are_tight(chunks);
    let r = spec_bundle_ranges(chunks);
    assert forall|b: i64| #[trigger] r.contains_key(b) implies r[b].0 <= r[b].1 + 1 && r[b].1 - r[b].0
        < u32::MAX by {
        assert(range_is_attained(chunks, r, b));
        let j = choose|j: int|
            0 <= j < chunks.len() && (#[trigger] chunks[j]).0 == b && chunk_last_byte(chunks[j])
                == r[b].1;
        assert(chunk_in_u32(chunks[j]));
        assert(r[b].0 <= chunks[j].1);
    }
    assert forall|j: int| 0 <= j < chunks.len() && 1 <= (#[trigger] chunks[j]).3 implies r[chunks[j].0].0
        <= r[chunks[j].0].1 by {
        assert(chunk_in_u32(chunks[j]));
    }
}

/// The plan holds an entry for each file id of `files` and no other, and the
/// entry of an id is the ranges of the last file with that id.
pub proof fn lemma_plan_keeps_last_file_per_id(files: Seq<File>)
    ensures
        forall|id: i64| #[trigger]
            spec_prepare_bundles(files).contains_key(id) <==> exists|i: int|
                0 <= i < files.len() && (#[trigger] files[i]).id == id,
        forall|i: int|
            0 <= i < files.len() && (forall|k: int| i < k < files.len() ==> (#[trigger] files[k]).id
                != files[i].id) ==> spec_prepare_bundles(files)[(#[trigger] files[i]).id]
                == spec_bundle_ranges(files[i].chunks@),
    decreases files.len(),
{
    if files.len() > 0 {
        let prefix = files.drop_last();
        let n = files.len() - 1;
        lemma_plan_keeps_last_file_per_id(prefix);
        let p0 = spec_prepare_bundles(prefix);
        let p = spec_prepare_bundles(files);
        assert forall|id: i64| #[trigger] p.contains_key(id) <==> exists|i: int|
            0 <= i < files.len() && (#[trigger] files[i]).id == id by {
            if p.contains_key(id) && id != files[n].id {
                assert(p0.contains_key(id));
                let i = choose|i: int| 0 <= i < prefix.len() && (#[trigger] prefix[i]).id == id;
                assert(files[i] == prefix[i]);
            }
            if exists|i: int| 0 <= i < files.len() && (#[trigger] files[i]).id == id {
                let i = choose|i: int| 0 <= i < files.len() && (#[trigger] files[i]).id == id;
                if i < n {
                    assert(prefix[i] == files[i]);
                }
            }
        }
        assert forall|i: int|
            0 <= i < files.len() && (forall|k: int| i < k < files.len() ==> (#[trigger] files[k]).id
                != files[i].id) implies p[(#[trigger] files[i]).id] == spec_bundle_ranges(
            files[i].chunks@,
        ) by {
            if i < n {
                assert(files[n].id != files[i].id);
                assert(prefix[i] == files[i]);
                assert forall|k: int| i < k < prefix.len() implies (#[trigger] prefix[k]).id
                    != prefix[i].id by {
                    assert(prefix[k] == files[k]);
                }
            }
        }
    }
}

/// The ranges of a file depend only on which chunks it has, not on their
/// order nor on repeats: two chunk lists with the same chunks plan alike.
pub proof fn lemma_bundle_ranges_ignore_chunk_order(c1: Seq<Chunk>, c2: Seq<Chunk>)
    requires
        chunks_in_u32(c1),
        chunks_in_u32(c2),
        forall|c: Chunk| c1.contains(c) <==> c2.contains(c),
    ensures
        spec_bundle_ranges(c1) == spec_bundle_ranges(c2),
{
    lemma_bundle_ranges_are_tight(c1);
    lemma_bundle_ranges_are_tight(c2);
    let r1 = spec_bundle_ranges(c1);
    let r2 = spec_bundle_ranges(c2);
    assert forall|b: i64| r1.contains_key(b) <==> r2.contains_key(b) by {
        if has_chunk_of(c1, b) {
            let j = choose|j: int| 0 <= j < c1.len() && (#[trigger] c1[j]).0 == b;
            assert(c1.contains(c1[j]));
            let k = choose|k: int| 0 <= k < c2.len() && c2[k] == c1[j];
            assert(c2[k].0 == b);
        }
        if has_chunk_of(c2, b) {
            let j = choose|j: int| 0 <= j < c2.len() && (#[trigger] c2[j]).0 == b;
            assert(c2.contains(c2[j]));
            let k = choose|k: int| 0 <= k < c1.len() && c1[k] == c2[j];
            assert(c1[k].0 == b);
        }
    }
    assert forall|b: i64| r1.contains_key(b) implies r1[b] == r2[b] by {
        lemma_ranges_bound_each_other(c1, c2, b);
        lemma_ranges_bound_each_other(c2, c1, b);
    }
    assert(r1 =~= r2);
}

/// Where every chunk of `c1` is a chunk of `c2`, each tight range of `c2`
/// stretches at least as far as the range of `c1` in both directions.
proof fn lemma_ranges_bound_each_other(c1: Seq<Chunk>, c2: Seq<Chunk>, b: i64)
    requires
        chunks_in_u32(c1),
        chunks_in_u32(c2),
        forall|c: Chunk| c1.contains(c) <==> c2.contains(c),
        spec_bundle_ranges(c1).contains_key(b),
        spec_bundle_ranges(c2).contains_key(b),
    ensures
        spec_bundle_ranges(c2)[b].0 <= spec_bundle_ranges(c1)[b].0,
        spec_bundle_ranges(c1)[b].1 <= spec_bundle_ranges(c2)[b].1,
{
    lemma_bundle_ranges_are_tight(c1);
    lemma_bundle_ranges_are_tight(c2);
    let r1 = spec_bundle_ranges(c1);
    assert(range_is_attained(c1, r1, b));
    let j1 = choose|j: int| 0 <= j < c1.len() && (#[trigger] c1[j]).0 == b && c1[j].1 == r1[b].0;
    let j2 = choose|j: int|
        0 <= j < c1.len() && (#[trigger] c1[j]).0 == b && chunk_last_byte(c1[j]) == r1[b].1;
    assert(c1.contains(c1[j1]));
    assert(c1.contains(c1[j2]));
    let k1 = choose|k: int| 0 <= k < c2.len() && c2[k] == c1[j1];
    let k2 = choose|k: int| 0 <= k < c2.len() && c2[k] == c1[j2];
    assert(ranges_cover(c2, spec_bundle_ranges(c2)));
    assert(c2[k1] == c1[j1]);
    assert(c2[k2] == c1[j2]);
}

/// `files` has a file with the id `id`.
pub open spec fn has_file_id(files: Seq<File>, id: i64) -> bool {
    exists|i: int| 0 <= i < files.len() && (#[trigger] files[i]).id == id
}

/// The plan of files with pairwise distinct ids depends only on which files
/// there are and which chunks each has: reordering the files, or the chunks
/// within a file, plans alike.
pub proof fn lemma_plan_ignores_order(f1: Seq<File>, f2: Seq<File>)
    requires
        files_in_u32(f1),
        files_in_u32(f2),
        forall|i: int, k: int| 0 <= i < k < f1.len() ==> (#[trigger] f1[i]).id != (#[trigger] f1[k]).id,
        forall|i: int, k: int| 0 <= i < k < f2.len() ==> (#[trigger] f2[i]).id != (#[trigger] f2[k]).id,
        forall|id: i64| #[trigger] has_file_id(f1, id) <==> has_file_id(f2, id),
        forall|i: int, k: int|
            0 <= i < f1.len() && 0 <= k < f2.len() && (#[trigger] f1[i]).id == (#[trigger] f2[k]).id
                ==> forall|c: Chunk| f1[i].chunks@.contains(c) <==> f2[k].chunks@.contains(c),
    ensures
        spec_prepare_bundles(f1) == spec_prepare_bundles(f2),
{
    lemma_plan_keeps_last_file_per_id(f1);
    lemma_plan_keeps_last_file_per_id(f2);
    let p1 = spec_prepare_bundles(f1);
    let p2 = spec_prepare_bundles(f2);
    assert forall|id: i64| p1.contains_key(id) <==> p2.contains_key(id) by {
        assert(has_file_id(f1, id) <==> has_file_id(f2, id));
        if p1.contains_key(id) {
            let i = choose|i: int| 0 <= i < f1.len() && (#[trigger] f1[i]).id == id;
            assert(f1[i].id == id);
        }
        if p2.contains_key(id) {
            let k = choose|k: int| 0 <= k < f2.len() && (#[trigger] f2[k]).id == id;
            assert(f2[k].id == id);
        }
    }
    assert forall|id: i64| p1.contains_key(id) implies p1[id] == p2[id] by {
        assert(has_file_id(f1, id) <==> has_file_id(f2, id));
        let i = choose|i: int| 0 <= i < f1.len() && (#[trigger] f1[i]).id == id;
        assert(f1[i].id == id);
        let k = choose|k: int| 0 <= k < f2.len() && (#[trigger] f2[k]).id == id;
        assert(f2[k].id == id);
        assert forall|m: int| i < m < f1.len() implies (#[trigger] f1[m]).id != f1[i].id by {
            assert(f1[i].id != f1[m].id);
        }
        assert forall|m: int| k < m < f2.len() implies (#[trigger] f2[m]).id != f2[k].id by {
            assert(f2[k].id != f2[m].id);
        }
        assert forall|j: int| 0 <= j < f1[i].chunks@.len() implies #[trigger] chunk_in_u32(
            f1[i].chunks@[j],
        ) by {}
        assert forall|j: int| 0 <= j < f2[k].chunks@.len() implies #[trigger] chunk_in_u32(
            f2[k].chunks@[j],
        ) by {}
        lemma_bundle_ranges_ignore_chunk_order(f1[i].chunks@, f2[k].chunks@);
    }
    assert(p1 =~= p2);
}

/// The plan depends only on which chunks each file has: two lists of files
/// with the same ids in the same order, whose files at each position have the
/// same chunks (in any order, with any repeats), plan alike. File ids need not
/// be distinct.
pub proof fn lemma_plan_ignores_chunk_order(f1: Seq<File>, f2: Seq<File>)
    requires
        files_in_u32(f1),
        files_in_u32(f2),
        f1.len() == f2.len(),
        forall|i: int| 0 <= i < f1.len() ==> (#[trigger] f1[i]).id == f2[i].id,
        forall|i: int, c: Chunk|
            0 <= i < f1.len() ==> ((#[trigger] f1[i].chunks@.contains(c)) <==> f2[i].chunks@.contains(
                c,
            )),
    ensures
        spec_prepare_bundles(f1) == spec_prepare_bundles(f2),
    decreases f1.len(),
{
    if f1.len() > 0 {
        let n = f1.len() - 1;
        let p1 = f1.drop_last();
        let p2 = f2.drop_last();
        assert forall|i: int, j: int|
            0 <= i < p1.len() && 0 <= j < p1[i].chunks@.len() implies #[trigger] chunk_in_u32(
            p1[i].chunks@[j],
        ) by {
            assert(p1[i] == f1[i]);
        }
        assert forall|i: int, j: int|
            0 <= i < p2.len() && 0 <= j < p2[i].chunks@.len() implies #[trigger] chunk_in_u32(
            p2[i].chunks@[j],
        ) by {
            assert(p2[i] == f2[i]);
        }
        assert forall|i: int| 0 <= i < p1.len() implies (#[trigger] p1[i]).id == p2[i].id by {
            assert(p1[i] == f1[i]);
            assert(p2[i] == f2[i]);
        }
        assert forall|i: int, c: Chunk| 0 <= i < p1.len() implies ((#[trigger] p1[i].chunks@.contains(
            c,
        )) <==> p2[i].chunks@.contains(c)) by {
            assert(p1[i] == f1[i]);
            assert(p2[i] == f2[i]);
            assert(f1[i].chunks@.contains(c) <==> f2[i].chunks@.contains(c));
        }
        lemma_plan_ignores_chunk_order(p1, p2);
        assert(f1[n].id == f2[n].id);
        assert forall|j: int| 0 <= j < f1[n].chunks@.len() implies #[trigger] chunk_in_u32(
            f1[n].chunks@[j],
        ) by {}
        assert forall|j: int| 0 <= j < f2[n].chunks@.len() implies #[trigger] chunk_in_u32(
            f2[n].chunks@[j],
        ) by {}
        assert forall|c: Chunk| f1[n].chunks@.contains(c) <==> f2[n].chunks@.contains(c) by {
            assert(f1[n].chunks@.contains(c) <==> f2[n].chunks@.contains(c));
        }
        lemma_bundle_ranges_ignore_chunk_order(f1[n].chunks@, f2[n].chunks@);
    }
}

/// A bundle's name is 23 characters: 16 upper-case hexadecimal digits that
/// read back as the id's 64 bits, then `.bundle`.
pub proof fn lemma_bundle_file_name_reads_back(bundle_id: i64)
    ensures
        spec_bundle_file_name(bundle_id).len() == 23,
        all_hex_digits(spec_bundle_file_name(bundle_id).subrange(0, 16)),
        hex_value(spec_bundle_file_name(bundle_id).subrange(0, 16)) == bundle_id as u64,
        spec_bundle_file_name(bundle_id).subrange(16, 23) == seq!['.', 'b', 'u', 'n', 'd', 'l', 'e'],
{
    let v = bundle_id as u64;
    lemma_pow16_16();
    lemma_hex_digits_read_back(v as nat, 16);
    let h = hex_digits(v as nat, 16);
    let n = spec_bundle_file_name(bundle_id);
    assert(n.subrange(0, 16) =~= h);
    assert(n.subrange(16, 23) =~= seq!['.', 'b', 'u', 'n', 'd', 'l', 'e']);
}

/// A bundle's address is the CDN address, `/`, then the bundle's name, whose
/// 16 digits read back as the id's 64 bits.
pub proof fn lemma_bundle_url_reads_back(cdn: Seq<char>, bundle_id: i64)
    ensures
        spec_bundle_url(cdn, bundle_id).len() == cdn.len() + 24,
        spec_bundle_url(cdn, bundle_id).subrange(0, cdn.len() as int) == cdn,
        spec_bundle_url(cdn, bundle_id)[cdn.len() as int] == '/',
        spec_bundle_url(cdn, bundle_id).subrange(cdn.len() + 1int, cdn.len() + 24int)
            == spec_bundle_file_name(bundle_id),
        hex_value(spec_bundle_url(cdn, bundle_id).subrange(cdn.len() + 1int, cdn.len() + 17int))
            == bundle_id as u64,
{
    lemma_bundle_file_name_reads_back(bundle_id);
    let u = spec_bundle_url(cdn, bundle_id);
    let n = spec_bundle_file_name(bundle_id);
    assert(u.subrange(0, cdn.len() as int) =~= cdn);
    assert(u.subrange(cdn.len() + 1int, cdn.len() + 24int) =~= n);
    assert(u.subrange(cdn.len() + 1int, cdn.len() + 17int) =~= n.subrange(0, 16));
}

/// Under one CDN address, distinct bundles have distinct addresses.
pub proof fn lemma_bundle_urls_differ(cdn: Seq<char>, a: i64, b: i64)
    requires
        a != b,
    ensures
        spec_bundle_url(cdn, a) != spec_bundle_url(cdn, b),
{
    lemma_bundle_url_reads_back(cdn, a);
    lemma_bundle_url_reads_back(cdn, b);
    if spec_bundle_url(cdn, a) == spec_bundle_url(cdn, b) {
        assert((a as u64) == (b as u64));
        assert(a == b) by (bit_vector)
            requires
                (a as u64) == (b as u64),
        ;
    }
}

/// A `Range` header reads back as the range it asks for: `bytes=`, then the
/// decimal digits of `from`, a `-` (the only one), then the decimal digits of
/// `to`.
pub proof fn lemma_range_header_reads_back(from: u32, to: u32)
    ensures
        spec_range_header(from, to).subrange(0, 6) == seq!['b', 'y', 't', 'e', 's', '='],
        exists|k: int|
            6 < k < spec_range_header(from, to).len() - 1 && #[trigger] spec_range_header(
                from,
                to,
            )[k] == '-',
        forall|k: int|
            6 <= k < spec_range_header(from, to).len() && #[trigger] spec_range_header(from, to)[k]
                == '-' ==> {
                let s = spec_range_header(from, to);
                &&& all_dec_digits(s.subrange(6, k))
                &&& all_dec_digits(s.subrange(k + 1, s.len() as int))
                &&& s.subrange(6, k).len() > 0
                &&& s.subrange(k + 1, s.len() as int).len() > 0
                &&& dec_value(s.subrange(6, k)) == from
                &&& dec_value(s.subrange(k + 1, s.len() as int)) == to
            },
{
    let s = spec_range_header(from, to);
    let a = dec_digits(from as nat);
    let b = dec_digits(to as nat);
    lemma_dec_digits_read_back(from as nat);
    lemma_dec_digits_read_back(to as nat);
    let k0: int = 6 + a.len() as int;
    assert(s.subrange(0, 6) =~= seq!['b', 'y', 't', 'e', 's', '=']);
    assert(s[k0] == '-');
    assert(s.subrange(6, k0) =~= a);
    assert(s.subrange(k0 + 1, s.len() as int) =~= b);
    assert forall|k: int| 6 <= k < s.len() && #[trigger] s[k] == '-' implies k == k0 by {
        assert(dec_digit_value('-') == -1);
        if k < k0 {
            assert(s[k] == a[k - 6]);
            assert(dec_digit_value(a[k - 6]) >= 0);
        } else if k > k0 {
            assert(s[k] == b[k - k0 - 1]);
            assert(dec_digit_value(b[k - k0 - 1]) >= 0);
        }
    }
}

/// A range `from..=to` holds as many bytes as `range_len` counts: cutting it
/// out of any longer byte sequence gives exactly `range_len` bytes.
pub proof fn lemma_range_len_counts_bytes(from: u32, to: u32, s: Seq<u8>)
    requires
        from <= to < s.len(),
    ensures
        s.subrange(from as int, to + 1).len() == range_len((from, to)),
{
}

} // verus!
