use rman::fmt::{push_decimal, push_hex_digits};
use rman::{Header, ManifestError, RiotManifest};

#[test]
fn hex_digits_keep_the_last_digits() {
    let mut s = String::from("x=");
    push_hex_digits(&mut s, 0xBEEF, 6);
    assert_eq!(s, "x=00BEEF");
    let mut s = String::new();
    push_hex_digits(&mut s, 0x12345, 3);
    assert_eq!(s, "345");
    let mut s = String::new();
    push_hex_digits(&mut s, 7, 0);
    assert_eq!(s, "");
}

#[test]
fn decimal_digits_have_no_leading_zeros() {
    for v in [0u64, 9, 10, 12345, u64::MAX] {
        let mut s = String::from("#");
        push_decimal(&mut s, v);
        assert_eq!(s, format!("#{v}"));
    }
}

#[test]
fn decompressed_body_becomes_the_manifest_data() {
    let header = Header { offset: 28, uncompressed_size: 3, ..Header::default() };
    let manifest = RiotManifest::from_decompressed(header, Some(vec![1, 2, 3])).unwrap();
    assert_eq!(manifest.header, header);
    assert_eq!(manifest.data.flatbuffer, vec![1, 2, 3]);
    assert_eq!(RiotManifest::from_decompressed(header, None), Err(ManifestError::ZstdDecompressError));
}

#[test]
fn body_is_decompressed_into_the_manifest() {
    let header = Header { uncompressed_size: 10, ..Header::default() };
    let body = zstd::bulk::compress(b"0123456789", 3).unwrap();
    let manifest = RiotManifest::from_body(header, &body).unwrap();
    assert_eq!(manifest.header, header);
    assert_eq!(manifest.data.flatbuffer, b"0123456789".to_vec());
    assert_eq!(RiotManifest::from_body(header, b"nope"), Err(ManifestError::ZstdDecompressError));
}
