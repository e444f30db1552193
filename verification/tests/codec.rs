//! Container and entry codec behaviour, listing, extraction, and formatting.

use ubl::container::{decode_container, FormatError};
use ubl::display::{hex_string, human_size, u64_to_dec};
use ubl::ops::{compress_files, extract_container, list_container, FileInput};

/// Hand-encodes one record: path length, path, original size, compressed
/// size, payload.
fn raw_entry(path: &[u8], original: u64, payload: &[u8]) -> Vec<u8> {
    let mut out = Vec::new();
    out.extend_from_slice(&(path.len() as u32).to_le_bytes());
    out.extend_from_slice(path);
    out.extend_from_slice(&original.to_le_bytes());
    out.extend_from_slice(&(payload.len() as u64).to_le_bytes());
    out.extend_from_slice(payload);
    out
}

#[test]
fn decode_empty_container() {
    let entries = decode_container(&[]).unwrap();
    assert_eq!(entries.len(), 0);
}

#[test]
fn decode_single_entry() {
    let bytes = raw_entry(b"a.txt", 12, b"PAYLOAD");
    let entries = decode_container(&bytes).unwrap();
    assert_eq!(entries.len(), 1);
    assert_eq!(entries[0].path, b"a.txt");
    assert_eq!(entries[0].original_size, 12);
    assert_eq!(entries[0].payload, b"PAYLOAD");
}

#[test]
fn decode_two_entries() {
    let mut bytes = raw_entry(b"a", 1, b"x");
    bytes.extend_from_slice(&raw_entry(b"b", 2, b"yz"));
    let entries = decode_container(&bytes).unwrap();
    assert_eq!(entries.len(), 2);
    assert_eq!(entries[0].path, b"a");
    assert_eq!(entries[1].path, b"b");
    assert_eq!(entries[1].payload, b"yz");
}

#[test]
fn decode_truncated_fixed_field() {
    // Three stray bytes: not a clean end, not a whole path-length field.
    let err = decode_container(&[1, 0, 0]).unwrap_err();
    assert!(matches!(err, FormatError::Truncated));
}

#[test]
fn decode_truncated_path() {
    // Path length says 5 but only 2 path bytes follow.
    let mut bytes = vec![5u8, 0, 0, 0];
    bytes.extend_from_slice(b"ab");
    let err = decode_container(&bytes).unwrap_err();
    assert!(matches!(err, FormatError::Truncated));
}

#[test]
fn decode_payload_length_past_end() {
    // The declared payload length reaches past the end of the buffer.
    let mut bytes = raw_entry(b"a", 1, b"x");
    let last = bytes.len() - 2;
    bytes[last] = 0xff; // inflate the compressed-size field
    let err = decode_container(&bytes).unwrap_err();
    assert!(matches!(err, FormatError::Truncated));
}

#[test]
fn decode_huge_length_does_not_allocate() {
    // A length field describing far more bytes than exist must be rejected,
    // not trusted.
    let mut bytes = vec![0xffu8, 0xff, 0xff, 0xff];
    bytes.extend_from_slice(b"abc");
    let err = decode_container(&bytes).unwrap_err();
    assert!(matches!(err, FormatError::Truncated));
}

#[test]
fn round_trip_two_files() {
    let files = vec![
        FileInput { path: b"a.txt".to_vec(), data: b"hello world!".to_vec() },
        FileInput { path: b"sub/b.txt".to_vec(), data: Vec::new() },
    ];
    let container = compress_files(&files);
    let out = extract_container(&container).unwrap();
    assert_eq!(out.len(), 2);
    assert_eq!(out[0].path, b"a.txt");
    assert_eq!(out[0].content.as_deref(), Some(b"hello world!".as_slice()));
    assert_eq!(out[1].path, b"sub/b.txt");
    assert_eq!(out[1].content.as_deref(), Some(b"".as_slice()));
}

#[test]
fn two_file_listing_sizes() {
    // A 12-byte file and an empty file: two rows, compressed size within the
    // original plus the codec's fixed frame overhead.
    let files = vec![
        FileInput { path: b"a.txt".to_vec(), data: b"hello world!".to_vec() },
        FileInput { path: b"sub/b.txt".to_vec(), data: Vec::new() },
    ];
    let container = compress_files(&files);
    let rows = list_container(&container).unwrap();
    assert_eq!(rows.len(), 2);
    assert_eq!(rows[0].name, "a.txt");
    assert!(rows[0].name_valid);
    assert_eq!(rows[0].original_size, 12);
    assert!(rows[0].compressed_size <= rows[0].original_size + 100);
    assert_eq!(rows[1].name, "sub/b.txt");
    assert_eq!(rows[1].original_size, 0);
    assert!(rows[1].compressed_size <= 100);
}

#[test]
fn compressor_reduces_redundant_input() {
    // Ten kilobytes of one letter must shrink: fails if the compressor were
    // handing its input back unchanged.
    let files = vec![FileInput { path: b"big".to_vec(), data: vec![b'z'; 10240] }];
    let container = compress_files(&files);
    let rows = list_container(&container).unwrap();
    assert_eq!(rows[0].original_size, 10240);
    assert!(rows[0].compressed_size < 10240);
    let out = extract_container(&container).unwrap();
    assert_eq!(out[0].content.as_deref(), Some(vec![b'z'; 10240].as_slice()));
}

#[test]
fn extract_flags_invalid_frame() {
    // A payload that is not a compressed frame marks only that file; the
    // rest still extract.
    let mut bytes = raw_entry(b"bad", 3, b"not a zstd frame");
    let files = vec![FileInput { path: b"good".to_vec(), data: b"data".to_vec() }];
    bytes.extend_from_slice(&compress_files(&files));
    let out = extract_container(&bytes).unwrap();
    assert_eq!(out.len(), 2);
    assert!(out[0].content.is_none());
    assert_eq!(out[1].content.as_deref(), Some(b"data".as_slice()));
}

#[test]
fn list_substitutes_sentinel_for_invalid_utf8() {
    let bytes = raw_entry(&[0xff, 0xfe, b'a'], 0, b"");
    let rows = list_container(&bytes).unwrap();
    assert_eq!(rows.len(), 1);
    assert!(!rows[0].name_valid);
    assert_eq!(rows[0].name, "<invalid utf8>");
    assert_eq!(rows[0].path, vec![0xff, 0xfe, b'a']);
}

#[test]
fn human_size_bytes() {
    assert_eq!(human_size(0), "0 B");
    assert_eq!(human_size(512), "512 B");
    assert_eq!(human_size(1023), "1023 B");
}

#[test]
fn human_size_kilobytes() {
    assert_eq!(human_size(1024), "1.00 KB");
    assert_eq!(human_size(1536), "1.50 KB");
    // 1535 / 1024 = 1.4990…: rounds up to the nearest hundredth.
    assert_eq!(human_size(1535), "1.50 KB");
}

#[test]
fn human_size_rounds_ties_to_even() {
    // 1152 / 1024 = 1.125 and 1408 / 1024 = 1.375: both are exact ties at
    // the hundredth, and round to the even digit.
    assert_eq!(human_size(1152), "1.12 KB");
    assert_eq!(human_size(1408), "1.38 KB");
}

#[test]
fn human_size_megabytes_and_gigabytes() {
    assert_eq!(human_size(2 * 1024 * 1024), "2.00 MB");
    assert_eq!(human_size(3 * 1024 * 1024 * 1024 + 512 * 1024 * 1024), "3.50 GB");
}

#[test]
fn decimal_rendering() {
    assert_eq!(u64_to_dec(0), "0");
    assert_eq!(u64_to_dec(7), "7");
    assert_eq!(u64_to_dec(1048576), "1048576");
    assert_eq!(u64_to_dec(u64::MAX), "18446744073709551615");
}

#[test]
fn hex_rendering() {
    assert_eq!(hex_string(&[]), "");
    assert_eq!(hex_string(&[0x00, 0xff, 0x1a]), "00ff1a");
}
