use std::collections::HashMap;

use rman::parser::fetch::{next_fetch_action, FetchAttempts, MAX_ATTEMPTS};
use rman::{ChunkError, FetchAction, FetchOutcome, File, RiotManifest};

fn file(id: i64, chunks: Vec<(i64, u32, u32, u32)>) -> File {
    File { id, name: format!("file{id}"), path: format!("dir/file{id}"), chunks, ..File::default() }
}

#[test]
fn bundle_file_names_are_sixteen_upper_hex_digits() {
    assert_eq!(RiotManifest::bundle_file_name(0x0123_4567_89AB_CDEF), "0123456789ABCDEF.bundle");
    assert_eq!(RiotManifest::bundle_file_name(0), "0000000000000000.bundle");
    assert_eq!(RiotManifest::bundle_file_name(255), "00000000000000FF.bundle");
    assert_eq!(RiotManifest::bundle_file_name(-1), "FFFFFFFFFFFFFFFF.bundle");
    assert_eq!(RiotManifest::bundle_file_name(i64::MIN), "8000000000000000.bundle");
    for id in [0i64, 1, 17, -2, 0x7FFF_FFFF_FFFF_FFFF] {
        assert_eq!(RiotManifest::bundle_file_name(id), format!("{id:016X}.bundle"));
    }
}

#[test]
fn distinct_bundles_have_distinct_names() {
    let ids = [0i64, 1, 16, 256, -1, -16, i64::MAX, i64::MIN];
    for a in ids {
        for b in ids {
            let same = RiotManifest::bundle_file_name(a) == RiotManifest::bundle_file_name(b);
            assert_eq!(same, a == b);
        }
    }
}

#[test]
fn bundle_urls_join_cdn_and_name() {
    assert_eq!(
        RiotManifest::bundle_url("https://cdn.example/channels/public/bundles", 0xABC),
        "https://cdn.example/channels/public/bundles/0000000000000ABC.bundle"
    );
}

#[test]
fn range_headers_spell_both_bounds() {
    assert_eq!(RiotManifest::range_header(0, 1023), "bytes=0-1023");
    assert_eq!(RiotManifest::range_header(7, 7), "bytes=7-7");
    assert_eq!(RiotManifest::range_header(10, u32::MAX - 1), "bytes=10-4294967294");
}

#[test]
fn expected_length_counts_both_bounds() {
    assert_eq!(RiotManifest::expected_length(0, 0), 1);
    assert_eq!(RiotManifest::expected_length(100, 199), 100);
    assert_eq!(RiotManifest::expected_length(1, u32::MAX), u32::MAX as usize);
}

#[test]
fn bundle_ranges_cover_all_chunks_of_each_bundle() {
    let files = vec![file(
        1,
        vec![(10, 100, 50, 20), (11, 0, 5, 5), (10, 40, 50, 10), (10, 300, 9, 1), (11, 5, 5, 5)],
    )];
    let plan = RiotManifest::prepare_bundles(&files);
    assert_eq!(plan.len(), 1);
    let ranges = &plan[&1];
    assert_eq!(ranges.len(), 2);
    assert_eq!(ranges[&10], (40, 300));
    assert_eq!(ranges[&11], (0, 9));
}

#[test]
fn later_file_with_same_id_replaces_earlier_plan() {
    let files = vec![file(7, vec![(1, 0, 10, 10)]), file(8, vec![(2, 5, 1, 1)]), file(7, vec![(3, 20, 4, 4)])];
    let plan = RiotManifest::prepare_bundles(&files);
    assert_eq!(plan.len(), 2);
    assert_eq!(plan[&7].len(), 1);
    assert_eq!(plan[&7][&3], (20, 23));
    assert_eq!(plan[&8][&2], (5, 5));
}

#[test]
fn file_without_chunks_has_empty_plan() {
    let plan = RiotManifest::prepare_bundles(&[file(3, vec![])]);
    assert!(plan[&3].is_empty());
    assert!(RiotManifest::prepare_bundles(&[]).is_empty());
}

#[test]
fn chunk_bounds_are_relative_to_range_start() {
    let ranges = HashMap::from([(1i64, (100u32, 199u32))]);
    let bytes = HashMap::from([(1i64, vec![0u8; 100])]);
    assert_eq!(RiotManifest::chunk_bounds((1, 100, 9, 10), &ranges, &bytes), Ok((0, 9)));
    assert_eq!(RiotManifest::chunk_bounds((1, 150, 9, 50), &ranges, &bytes), Ok((50, 99)));
}

#[test]
fn chunk_bounds_report_each_error() {
    let ranges = HashMap::from([(1i64, (100u32, 199u32)), (2, (0, 9))]);
    let bytes = HashMap::from([(1i64, vec![0u8; 100])]);
    assert_eq!(RiotManifest::chunk_bounds((3, 0, 1, 1), &ranges, &bytes), Err(ChunkError::MissingRange));
    assert_eq!(RiotManifest::chunk_bounds((1, 99, 1, 5), &ranges, &bytes), Err(ChunkError::OutOfRange));
    assert_eq!(RiotManifest::chunk_bounds((1, 150, 1, u32::MAX), &ranges, &bytes), Err(ChunkError::OutOfRange));
    assert_eq!(RiotManifest::chunk_bounds((1, 150, 1, 51), &ranges, &bytes), Err(ChunkError::OutOfRange));
    assert_eq!(RiotManifest::chunk_bounds((2, 0, 1, 1), &ranges, &bytes), Err(ChunkError::MissingBytes));
    assert_eq!(RiotManifest::chunk_bounds((2, 0, 1, 0), &ranges, &bytes), Err(ChunkError::OutOfRange));
}

fn compressed(data: &[u8]) -> Vec<u8> {
    zstd::bulk::compress(data, 3).unwrap()
}

#[test]
fn file_is_assembled_from_its_chunks_in_order() {
    let part_a = b"first part of the file, ".to_vec();
    let part_b = b"second part".to_vec();
    let part_c = vec![0x42u8; 300];
    let ca = compressed(&part_a);
    let cb = compressed(&part_b);
    let cc = compressed(&part_c);
    // Bundle 5 holds `b` then `a` from byte 1000 on; bundle 6 holds `c` at byte 0.
    let mut bundle5 = cb.clone();
    bundle5.extend_from_slice(&ca);
    let chunks = vec![
        (5i64, 1000 + cb.len() as u32, part_a.len() as u32, ca.len() as u32),
        (5, 1000, part_b.len() as u32, cb.len() as u32),
        (6, 0, part_c.len() as u32, cc.len() as u32),
    ];
    let f = file(9, chunks);
    let plan = RiotManifest::prepare_bundles(std::slice::from_ref(&f));
    let ranges = &plan[&9];
    assert_eq!(ranges[&5], (1000, 1000 + bundle5.len() as u32 - 1));
    for (bundle, &(from, to)) in ranges {
        let bytes = if *bundle == 5 { &bundle5 } else { &cc };
        assert_eq!(RiotManifest::expected_length(from, to), bytes.len());
    }
    let bytes_map = HashMap::from([(5i64, bundle5), (6, cc)]);
    let contents = RiotManifest::try_decompress_file(&f, &bytes_map, ranges).unwrap();
    let mut expected = part_a.clone();
    expected.extend_from_slice(&part_b);
    expected.extend_from_slice(&part_c);
    assert_eq!(contents, expected);
}

#[test]
fn file_without_chunks_is_empty() {
    let f = file(1, vec![]);
    assert_eq!(RiotManifest::try_decompress_file(&f, &HashMap::new(), &HashMap::new()), Ok(vec![]));
}

#[test]
fn corrupt_chunk_fails_decompression() {
    let f = file(1, vec![(2, 0, 10, 4)]);
    let ranges = HashMap::from([(2i64, (0u32, 3u32))]);
    let bytes = HashMap::from([(2i64, vec![1u8, 2, 3, 4])]);
    assert_eq!(RiotManifest::try_decompress_file(&f, &bytes, &ranges), Err(ChunkError::DecompressFailed));
}

#[test]
fn chunk_larger_than_its_uncompressed_size_fails() {
    let data = vec![3u8; 64];
    let c = compressed(&data);
    let f = file(1, vec![(2, 0, 32, c.len() as u32)]);
    let ranges = HashMap::from([(2i64, (0u32, c.len() as u32 - 1))]);
    let bytes = HashMap::from([(2i64, c)]);
    assert_eq!(RiotManifest::try_decompress_file(&f, &bytes, &ranges), Err(ChunkError::DecompressFailed));
}

#[test]
fn first_failing_chunk_decides_the_error() {
    let data = b"ok".to_vec();
    let c = compressed(&data);
    let f = file(1, vec![(2, 0, 2, c.len() as u32), (3, 0, 1, 1), (4, 0, 1, 1)]);
    let ranges = HashMap::from([(2i64, (0u32, c.len() as u32 - 1)), (4, (0, 0))]);
    let bytes = HashMap::from([(2i64, c), (4, vec![0u8])]);
    assert_eq!(RiotManifest::try_decompress_file(&f, &bytes, &ranges), Err(ChunkError::MissingRange));
    let f = file(1, vec![(4, 0, 1, 1), (3, 0, 1, 1)]);
    assert_eq!(RiotManifest::try_decompress_file(&f, &bytes, &ranges), Err(ChunkError::DecompressFailed));
    let ranges = HashMap::from([(5i64, (0u32, 0u32))]);
    let f = file(1, vec![(5, 0, 1, 1)]);
    assert_eq!(RiotManifest::try_decompress_file(&f, &bytes, &ranges), Err(ChunkError::MissingBytes));
}

#[test]
fn reply_of_expected_length_is_stored() {
    assert_eq!(next_fetch_action(1, FetchOutcome::Received(10), 10), FetchAction::Store);
    assert_eq!(next_fetch_action(3, FetchOutcome::Received(10), 10), FetchAction::Store);
}

#[test]
fn wrong_length_is_retried_then_abandoned() {
    assert_eq!(next_fetch_action(1, FetchOutcome::Received(9), 10), FetchAction::Retry);
    assert_eq!(next_fetch_action(2, FetchOutcome::Received(11), 10), FetchAction::Retry);
    assert_eq!(next_fetch_action(MAX_ATTEMPTS, FetchOutcome::Received(9), 10), FetchAction::Abandon);
}

#[test]
fn failures_are_retried_then_given_up() {
    assert_eq!(next_fetch_action(1, FetchOutcome::Failed, 10), FetchAction::Retry);
    assert_eq!(next_fetch_action(2, FetchOutcome::Failed, 10), FetchAction::Retry);
    assert_eq!(next_fetch_action(3, FetchOutcome::Failed, 10), FetchAction::GiveUp);
}

#[test]
fn a_range_is_asked_for_at_most_three_times() {
    let mut fetch = FetchAttempts::new(4);
    let mut requests = 0;
    while !fetch.is_finished() {
        requests += 1;
        fetch.record(FetchOutcome::Failed);
    }
    assert_eq!(requests, 3);
}

#[test]
fn fetch_stops_at_the_first_reply_of_expected_length() {
    let mut fetch = FetchAttempts::new(4);
    assert_eq!(fetch.record(FetchOutcome::Received(3)), FetchAction::Retry);
    assert!(!fetch.is_finished());
    assert_eq!(fetch.record(FetchOutcome::Received(4)), FetchAction::Store);
    assert!(fetch.is_finished());
}

#[test]
fn fetch_of_wrong_lengths_is_abandoned() {
    let mut fetch = FetchAttempts::new(4);
    assert_eq!(fetch.record(FetchOutcome::Received(3)), FetchAction::Retry);
    assert_eq!(fetch.record(FetchOutcome::Failed), FetchAction::Retry);
    assert_eq!(fetch.record(FetchOutcome::Received(5)), FetchAction::Abandon);
    assert!(fetch.is_finished());
}

#[test]
fn zero_size_chunks_are_planned() {
    let files = vec![file(1, vec![(10, 100, 0, 0)]), file(2, vec![(10, 50, 20, 10), (10, 55, 0, 0)])];
    let plan = RiotManifest::prepare_bundles(&files);
    assert_eq!(plan[&1][&10], (100, 99));
    assert_eq!(plan[&2][&10], (50, 59));
}

#[test]
fn zero_size_chunk_inside_a_range_decompresses_to_nothing() {
    let data = b"some bytes".to_vec();
    let c = compressed(&data);
    let empty = compressed(b"");
    let mut bundle = c.clone();
    bundle.extend_from_slice(&empty);
    let f = file(
        1,
        vec![
            (3, 0, data.len() as u32, c.len() as u32),
            (3, 5, 0, 0),
            (3, c.len() as u32, 0, empty.len() as u32),
        ],
    );
    let plan = RiotManifest::prepare_bundles(std::slice::from_ref(&f));
    let bytes = HashMap::from([(3i64, bundle)]);
    assert_eq!(RiotManifest::try_decompress_file(&f, &bytes, &plan[&1]), Ok(data));
}

#[test]
fn each_chunk_decompresses_on_its_own() {
    let data = vec![7u8; 40];
    let c = compressed(&data);
    let ranges = HashMap::from([(2i64, (10u32, 10 + c.len() as u32 - 1))]);
    let bytes = HashMap::from([(2i64, c.clone())]);
    assert_eq!(RiotManifest::try_decompress_chunk((2, 10, 40, c.len() as u32), &ranges, &bytes), Ok(data));
    assert_eq!(
        RiotManifest::try_decompress_chunk((2, 10, 39, c.len() as u32), &ranges, &bytes),
        Err(ChunkError::DecompressFailed)
    );
    assert_eq!(RiotManifest::try_decompress_chunk((9, 10, 40, 1), &ranges, &bytes), Err(ChunkError::MissingRange));
    assert_eq!(RiotManifest::try_decompress_chunk((2, 9, 40, 1), &ranges, &bytes), Err(ChunkError::OutOfRange));
}

#[test]
fn planned_chunks_decompress_directly() {
    let data = b"direct contents".to_vec();
    let c = compressed(&data);
    let f = file(4, vec![(8, 0, data.len() as u32, c.len() as u32)]);
    let plan = RiotManifest::prepare_bundles(std::slice::from_ref(&f));
    let bytes = HashMap::from([(8i64, c)]);
    assert_eq!(RiotManifest::decompress_chunk(f.chunks[0], &plan[&4], &bytes), data);
    assert_eq!(RiotManifest::decompress_file(&f, &bytes, &plan[&4]), data);
}

#[test]
fn ranges_cut_from_whole_bundle_give_the_absolute_cuts() {
    let part_a = b"alpha".to_vec();
    let part_b = b"beta beta".to_vec();
    let ca = compressed(&part_a);
    let cb = compressed(&part_b);
    // Whole bundle: 7 bytes of padding, `a`, 3 bytes of padding, `b`, 5 bytes.
    let mut whole = vec![0xEEu8; 7];
    whole.extend_from_slice(&ca);
    whole.extend_from_slice(&[0xEE; 3]);
    let b_at = whole.len() as u32;
    whole.extend_from_slice(&cb);
    whole.extend_from_slice(&[0xEE; 5]);
    let f = file(
        1,
        vec![(4, b_at, part_b.len() as u32, cb.len() as u32), (4, 7, part_a.len() as u32, ca.len() as u32)],
    );
    let plan = RiotManifest::prepare_bundles(std::slice::from_ref(&f));
    let (from, to) = plan[&1][&4];
    let downloaded = whole[from as usize..=to as usize].to_vec();
    let bytes = HashMap::from([(4i64, downloaded)]);
    let mut expected = part_b.clone();
    expected.extend_from_slice(&part_a);
    assert_eq!(RiotManifest::try_decompress_file(&f, &bytes, &plan[&1]), Ok(expected));
}
