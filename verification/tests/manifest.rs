use rman::entries::{FileEntry, FileTable};
use rman::{Header, ManifestError, RiotManifest};

fn header_bytes(magic: u32, major: u8, offset: u32, compressed: u32, uncompressed: u32) -> Vec<u8> {
    let mut bytes = Vec::new();
    bytes.extend_from_slice(&magic.to_le_bytes());
    bytes.push(major);
    bytes.push(1);
    bytes.extend_from_slice(&0x0200u16.to_le_bytes());
    bytes.extend_from_slice(&offset.to_le_bytes());
    bytes.extend_from_slice(&compressed.to_le_bytes());
    bytes.extend_from_slice(&0x1122_3344_5566_7788u64.to_le_bytes());
    bytes.extend_from_slice(&uncompressed.to_le_bytes());
    bytes
}

fn manifest_file(body: &[u8], uncompressed: u32) -> Vec<u8> {
    let compressed = zstd::bulk::compress(body, 3).unwrap();
    let mut bytes = header_bytes(0x4E41_4D52, 2, 28, compressed.len() as u32, uncompressed);
    bytes.extend_from_slice(&compressed);
    bytes
}

#[test]
fn header_fields_are_read_little_endian() {
    let bytes = header_bytes(0x4E41_4D52, 2, 28, 0x0102_0304, 0x0A0B_0C0D);
    let header = Header::from_bytes(&bytes).unwrap();
    assert_eq!(header.magic, 0x4E41_4D52);
    assert_eq!(&bytes[0..4], b"RMAN");
    assert_eq!(header.major, 2);
    assert_eq!(header.minor, 1);
    assert_eq!(header.flags, 0x0200);
    assert_eq!(header.offset, 28);
    assert_eq!(header.compressed_size, 0x0102_0304);
    assert_eq!(header.manifest_id, 0x1122_3344_5566_7788);
    assert_eq!(header.uncompressed_size, 0x0A0B_0C0D);
}

#[test]
fn header_with_wrong_magic_is_refused() {
    let bytes = header_bytes(0x1234_5678, 2, 28, 0, 0);
    assert_eq!(Header::from_bytes(&bytes), Err(ManifestError::InvalidMagicBytes(0x1234_5678)));
    assert_eq!(Header::from_bytes(b"RMAX"), Err(ManifestError::InvalidMagicBytes(0x5841_4D52)));
}

#[test]
fn header_with_other_major_is_refused() {
    let bytes = header_bytes(0x4E41_4D52, 3, 28, 0, 0);
    assert_eq!(Header::from_bytes(&bytes), Err(ManifestError::InvalidMajor(3)));
}

#[test]
fn short_header_is_an_io_error() {
    assert_eq!(Header::from_bytes(b""), Err(ManifestError::IoError));
    assert_eq!(Header::from_bytes(b"RMA"), Err(ManifestError::IoError));
    assert_eq!(Header::from_bytes(b"RMAN"), Err(ManifestError::IoError));
    let bytes = header_bytes(0x4E41_4D52, 2, 28, 0, 0);
    assert_eq!(Header::from_bytes(&bytes[..27]), Err(ManifestError::IoError));
    assert!(Header::from_bytes(&bytes[..28]).is_ok());
}

#[test]
fn manifest_body_is_decompressed() {
    let body: Vec<u8> = (0..200u32).map(|i| (i % 7) as u8).collect();
    let bytes = manifest_file(&body, 200);
    let manifest = RiotManifest::from_bytes(&bytes).unwrap();
    assert_eq!(manifest.header.uncompressed_size, 200);
    assert_eq!(manifest.data.flatbuffer, body);
    assert_ne!(manifest.data.flatbuffer, bytes[28..].to_vec());
}

#[test]
fn manifest_body_after_a_gap_is_found() {
    let body = b"flatbuffer body".to_vec();
    let compressed = zstd::bulk::compress(&body, 3).unwrap();
    let mut bytes = header_bytes(0x4E41_4D52, 2, 40, compressed.len() as u32, body.len() as u32);
    bytes.extend_from_slice(&[0xAA; 12]);
    bytes.extend_from_slice(&compressed);
    let manifest = RiotManifest::from_bytes(&bytes).unwrap();
    assert_eq!(manifest.data.flatbuffer, body);
}

#[test]
fn truncated_manifest_body_is_an_io_error() {
    let body = vec![5u8; 64];
    let bytes = manifest_file(&body, 64);
    assert_eq!(RiotManifest::from_bytes(&bytes[..bytes.len() - 1]), Err(ManifestError::IoError));
    let far = header_bytes(0x4E41_4D52, 2, u32::MAX, u32::MAX, 10);
    assert_eq!(RiotManifest::from_bytes(&far), Err(ManifestError::IoError));
}

#[test]
fn undecompressible_manifest_body_is_a_zstd_error() {
    let mut bytes = header_bytes(0x4E41_4D52, 2, 28, 4, 100);
    bytes.extend_from_slice(&[1, 2, 3, 4]);
    assert_eq!(RiotManifest::from_bytes(&bytes), Err(ManifestError::ZstdDecompressError));
}

#[test]
fn manifest_body_larger_than_announced_is_a_zstd_error() {
    let body = vec![9u8; 100];
    let bytes = manifest_file(&body, 50);
    assert_eq!(RiotManifest::from_bytes(&bytes), Err(ManifestError::ZstdDecompressError));
}

#[test]
fn manifest_header_errors_come_first() {
    let bytes = header_bytes(0x4E41_4D52, 1, 28, 4, 100);
    assert_eq!(RiotManifest::from_bytes(&bytes), Err(ManifestError::InvalidMajor(1)));
}

#[test]
fn file_entry_carries_every_field() {
    let table = FileTable {
        id: 1,
        directory_id: 2,
        size: 3,
        name: Some("League of Legends.exe".to_string()),
        language_mask: 4,
        unk5: 5,
        unk6: 6,
        chunk_ids: Some(vec![7, 8, 9]),
        unk8: 10,
        symlink: Some("link".to_string()),
        unk10: 11,
        param_id: 12,
        permissions: 13,
    };
    let entry = FileEntry::from(table);
    assert_eq!(
        entry,
        FileEntry {
            id: 1,
            directory_id: 2,
            size: 3,
            name: "League of Legends.exe".to_string(),
            language_mask: 4,
            unk5: 5,
            unk6: 6,
            chunk_ids: vec![7, 8, 9],
            unk8: 10,
            symlink: "link".to_string(),
            unk10: 11,
            param_id: 12,
            permissions: 13,
        }
    );
}

#[test]
fn file_entry_defaults_absent_fields() {
    let entry = FileEntry::from(FileTable { id: 42, ..FileTable::default() });
    assert_eq!(entry.id, 42);
    assert_eq!(entry.name, "");
    assert_eq!(entry.symlink, "");
    assert!(entry.chunk_ids.is_empty());
}

#[test]
fn example_downloader_greets() {
    assert_eq!(rman::downloader::download_files(), "hello");
}

#[test]
fn bytes_beyond_the_body_do_not_matter() {
    let body = b"manifest body".to_vec();
    let mut bytes = manifest_file(&body, body.len() as u32);
    let first = RiotManifest::from_bytes(&bytes).unwrap();
    bytes.extend_from_slice(&[0xFF; 17]);
    let second = RiotManifest::from_bytes(&bytes).unwrap();
    assert_eq!(first, second);
}

#[test]
fn empty_body_past_the_end_is_read_as_empty() {
    let empty = zstd::bulk::compress(b"", 3).unwrap();
    assert!(!empty.is_empty());
    // An announced body of 0 bytes reads nothing, wherever it starts.
    let bytes = header_bytes(0x4E41_4D52, 2, 500, 0, 0);
    let padded = {
        let mut b = bytes.clone();
        b.resize(500, 0);
        b
    };
    assert_eq!(RiotManifest::from_bytes(&bytes), RiotManifest::from_bytes(&padded));
}
